//! One command/response exchange with the daemon, as a state machine.
//!
//! The session performs no I/O. It says what to do next, is told what came
//! of it, and keeps the observations of the reply. Whoever drives it opens
//! the channel, sends and receives the frames, and releases the channel.

use vstd::prelude::*;
use crate::error::{KnotError, KnotResult};
use crate::export::{all_accepted, render, rendering, snapshot_text};
use crate::frame::{KnotCtlData, KnotCtlIdx, KnotCtlType};
use crate::metric::{MetricRegistry, Series};
use crate::router::{collected, route, routed};

verus! {

/// Where a session stands.
#[derive(Clone, Copy, Debug, PartialEq, Eq, Structural)]
pub enum SessionState {
    /// No channel is open.
    Disconnected,
    /// The channel is open and the request is being sent.
    Connected,
    /// The request is out and the reply has not ended.
    AwaitingReply,
    /// The exchange is over, in success or in failure, and the channel is
    /// still to be released.
    Draining,
    /// The channel is released, or was never open.
    Closed,
}

/// What the driver is to do next.
#[derive(Debug)]
pub enum SessionAction {
    /// Open the channel to the daemon. Where a timeout is given, in
    /// milliseconds, no later step on the channel is to wait longer.
    Connect(Option<i32>),
    /// Send one frame of this kind with these fields.
    Send(KnotCtlType, Option<KnotCtlData>),
    /// Wait for one frame.
    Recv,
    /// Release the channel.
    Close,
    /// Nothing: the session is over.
    Finish,
}

/// What came of the last action.
#[derive(Debug)]
pub enum SessionEvent {
    /// The channel is open.
    Connected,
    /// The channel could not be opened.
    ConnectFailed,
    /// The frame was sent.
    Sent,
    /// The frame could not be sent.
    SendFailed,
    /// A frame arrived.
    Frame(KnotCtlType, KnotCtlData),
    /// A frame arrived whose kind is none of the protocol.
    UnknownFrame,
    /// No frame arrived: the channel failed or was closed.
    RecvFailed,
    /// The channel is released.
    Closed,
}

/// An action, as a value of the model.
pub enum Action {
    Connect(Option<i32>),
    Send(KnotCtlType, Option<Map<KnotCtlIdx, Seq<char>>>),
    Recv,
    Close,
    Finish,
}

/// An event, as a value of the model.
pub enum Occurrence {
    Connected,
    ConnectFailed,
    Sent,
    SendFailed,
    Frame(KnotCtlType, Map<KnotCtlIdx, Seq<char>>),
    UnknownFrame,
    RecvFailed,
    Closed,
}

impl View for SessionAction {
    type V = Action;

    open spec fn view(&self) -> Action {
        match *self {
            SessionAction::Connect(timeout) => Action::Connect(timeout),
            SessionAction::Send(kind, Some(fields)) => Action::Send(kind, Some(fields@)),
            SessionAction::Send(kind, None) => Action::Send(kind, None),
            SessionAction::Recv => Action::Recv,
            SessionAction::Close => Action::Close,
            SessionAction::Finish => Action::Finish,
        }
    }
}

impl View for SessionEvent {
    type V = Occurrence;

    open spec fn view(&self) -> Occurrence {
        match *self {
            SessionEvent::Connected => Occurrence::Connected,
            SessionEvent::ConnectFailed => Occurrence::ConnectFailed,
            SessionEvent::Sent => Occurrence::Sent,
            SessionEvent::SendFailed => Occurrence::SendFailed,
            SessionEvent::Frame(kind, fields) => Occurrence::Frame(kind, fields@),
            SessionEvent::UnknownFrame => Occurrence::UnknownFrame,
            SessionEvent::RecvFailed => Occurrence::RecvFailed,
            SessionEvent::Closed => Occurrence::Closed,
        }
    }
}

/// A session, as a value of the model.
pub struct Session {
    pub state: SessionState,
    /// The timeout for the channel, in milliseconds, if one was set.
    pub timeout: Option<i32>,
    /// The command frame is sent and the frame that ends the request is not.
    pub terminator_due: bool,
    /// The flags to send with the command, if any.
    pub flags: Option<Seq<char>>,
    /// The filter to send with the command, if any.
    pub filter: Option<Seq<char>>,
    /// What the reply has yielded so far. A session that failed holds none.
    pub series: Seq<Series>,
    /// Why the session failed, if it did.
    pub failure: Option<KnotError>,
}

/// The fields of the command frame: the command, and the flags and the
/// filter where there are any.
pub open spec fn command_fields(flags: Option<Seq<char>>, filter: Option<Seq<char>>) -> Map<
    KnotCtlIdx,
    Seq<char>,
> {
    let command = Map::<KnotCtlIdx, Seq<char>>::empty().insert(KnotCtlIdx::CMD, "zone-status"@);
    let flagged = match flags {
        Some(text) => command.insert(KnotCtlIdx::FLAGS, text),
        None => command,
    };
    match filter {
        Some(text) => flagged.insert(KnotCtlIdx::FILTER, text),
        None => flagged,
    }
}

impl Session {
    /// A session that has done nothing yet.
    pub open spec fn fresh(flags: Option<Seq<char>>, filter: Option<Seq<char>>) -> Session {
        Session {
            state: SessionState::Disconnected,
            timeout: None,
            terminator_due: false,
            flags,
            filter,
            series: Seq::empty(),
            failure: None,
        }
    }

    /// The reply was received up to the frame that ends it, and nothing failed.
    pub open spec fn complete(self) -> bool {
        self.failure is None && (self.state == SessionState::Draining || self.state
            == SessionState::Closed)
    }

    /// The session after a failure. The first failure is the one that is
    /// kept. The observations are dropped. A channel that is open is still
    /// to be released.
    pub open spec fn failed(self, error: KnotError) -> Session {
        Session {
            state: if self.state == SessionState::Disconnected || self.state
                == SessionState::Closed {
                SessionState::Closed
            } else {
                SessionState::Draining
            },
            terminator_due: false,
            series: Seq::empty(),
            failure: if self.failure is Some {
                self.failure
            } else {
                Some(error)
            },
            ..self
        }
    }

    /// What the driver is to do next.
    pub open spec fn pending(self) -> Action {
        match self.state {
            SessionState::Disconnected => Action::Connect(self.timeout),
            SessionState::Connected => if self.terminator_due {
                Action::Send(KnotCtlType::BLOCK, None)
            } else {
                Action::Send(KnotCtlType::DATA, Some(command_fields(self.flags, self.filter)))
            },
            SessionState::AwaitingReply => Action::Recv,
            SessionState::Draining => Action::Close,
            SessionState::Closed => Action::Finish,
        }
    }

    /// The session after an event. An event that does not answer the pending
    /// action breaks the protocol. A session that is closed stays as it is.
    pub open spec fn stepped(self, event: Occurrence) -> Session {
        match (self.state, event) {
            (SessionState::Closed, _) => self,
            (SessionState::Disconnected, Occurrence::Connected) => Session {
                state: SessionState::Connected,
                ..self
            },
            (SessionState::Disconnected, Occurrence::ConnectFailed) => self.failed(
                KnotError::Connect,
            ),
            (SessionState::Connected, Occurrence::Sent) => if self.terminator_due {
                Session { state: SessionState::AwaitingReply, terminator_due: false, ..self }
            } else {
                Session { terminator_due: true, ..self }
            },
            (SessionState::Connected, Occurrence::SendFailed) => self.failed(KnotError::Send),
            (SessionState::AwaitingReply, Occurrence::Frame(kind, fields)) => match kind {
                KnotCtlType::DATA | KnotCtlType::EXTRA => match routed(self.series, fields) {
                    Ok(series) => Session { series, ..self },
                    Err(error) => self.failed(error),
                },
                KnotCtlType::BLOCK => Session { state: SessionState::Draining, ..self },
                KnotCtlType::END => self.failed(KnotError::Protocol),
            },
            (SessionState::AwaitingReply, Occurrence::UnknownFrame) => self.failed(
                KnotError::Protocol,
            ),
            (SessionState::AwaitingReply, Occurrence::RecvFailed) => self.failed(
                KnotError::Receive,
            ),
            (SessionState::Draining, Occurrence::Closed) => Session {
                state: SessionState::Closed,
                ..self
            },
            _ => self.failed(KnotError::Protocol),
        }
    }

    /// The session after a run of events.
    pub open spec fn run(self, events: Seq<Occurrence>) -> Session
        decreases events.len(),
    {
        if events.len() == 0 {
            self
        } else {
            self.stepped(events[0]).run(events.drop_first())
        }
    }

    /// What the snapshot of a session is: the failure of a session that
    /// failed, `Receive` for a session whose reply has not ended, and else
    /// what rendering makes of the observations.
    pub open spec fn snapshot(self) -> Result<Seq<char>, KnotError> {
        match self.failure {
            Some(error) => Err(error),
            None => if self.complete() {
                rendering(self.series)
            } else {
                Err(KnotError::Receive)
            },
        }
    }

    /// What a session can hold: a failed session holds no observation and
    /// is at its end; only a connected session can owe the frame that ends
    /// the request; nothing is observed before the request is out.
    pub open spec fn consistent(self) -> bool {
        &&& self.failure is Some ==> self.series.len() == 0 && (self.state == SessionState::Draining
            || self.state == SessionState::Closed)
        &&& self.terminator_due ==> self.state == SessionState::Connected
        &&& self.state == SessionState::Disconnected || self.state == SessionState::Connected
            ==> self.series.len() == 0
    }
}

/// The session of one scrape: one exchange with the daemon, from the opening
/// of the channel to its release.
#[derive(Debug)]
pub struct KnotCtx {
    state: SessionState,
    timeout: Option<i32>,
    terminator_due: bool,
    flags: Option<String>,
    filter: Option<String>,
    registry: MetricRegistry,
    failure: Option<KnotError>,
}

impl View for KnotCtx {
    type V = Session;

    closed spec fn view(&self) -> Session {
        Session {
            state: self.state,
            timeout: self.timeout,
            terminator_due: self.terminator_due,
            flags: match self.flags {
                Some(text) => Some(text@),
                None => None,
            },
            filter: match self.filter {
                Some(text) => Some(text@),
                None => None,
            },
            series: self.registry@,
            failure: self.failure,
        }
    }
}

impl KnotCtx {
    #[verifier::type_invariant]
    spec fn well_formed(self) -> bool {
        self@.consistent()
    }

    /// A session that asks for the status of all zones.
    pub fn new() -> (session: Self)
        ensures
            session@ == Session::fresh(None, None),
    {
        KnotCtx {
            state: SessionState::Disconnected,
            timeout: None,
            terminator_due: false,
            flags: None,
            filter: None,
            registry: MetricRegistry::new(),
            failure: None,
        }
    }

    /// A session that sends flags or a filter with its command.
    pub fn with_options(flags: Option<String>, filter: Option<String>) -> (session: Self)
        ensures
            session@ == Session::fresh(
                match flags {
                    Some(text) => Some(text@),
                    None => None,
                },
                match filter {
                    Some(text) => Some(text@),
                    None => None,
                },
            ),
    {
        KnotCtx {
            state: SessionState::Disconnected,
            timeout: None,
            terminator_due: false,
            flags,
            filter,
            registry: MetricRegistry::new(),
            failure: None,
        }
    }

    /// Sets the timeout for the channel, in milliseconds. It is handed to
    /// the driver, unchanged, with the action that opens the channel.
    pub fn set_timeout(&mut self, timeout_ms: i32)
        ensures
            final(self)@ == (Session { timeout: Some(timeout_ms), ..old(self)@ }),
    {
        proof {
            use_type_invariant(&*self);
        }
        self.timeout = Some(timeout_ms);
    }

    /// Where the session stands.
    pub fn state(&self) -> (state: SessionState)
        ensures
            state == self@.state,
            self@.consistent(),
    {
        proof {
            use_type_invariant(self);
        }
        self.state
    }

    /// Why the session failed, if it did.
    pub fn failure(&self) -> (failure: Option<KnotError>)
        ensures
            failure == self@.failure,
    {
        self.failure
    }

    /// What the driver is to do next.
    pub fn action(&self) -> (action: SessionAction)
        ensures
            action@ == self@.pending(),
    {
        match self.state {
            SessionState::Disconnected => SessionAction::Connect(self.timeout),
            SessionState::Connected => {
                if self.terminator_due {
                    SessionAction::Send(KnotCtlType::BLOCK, None)
                } else {
                    let mut fields = KnotCtlData::new();
                    fields.insert(KnotCtlIdx::CMD, "zone-status".to_owned());
                    match &self.flags {
                        Some(text) => {
                            fields.insert(KnotCtlIdx::FLAGS, text.clone());
                        },
                        None => {},
                    }
                    match &self.filter {
                        Some(text) => {
                            fields.insert(KnotCtlIdx::FILTER, text.clone());
                        },
                        None => {},
                    }
                    SessionAction::Send(KnotCtlType::DATA, Some(fields))
                }
            },
            SessionState::AwaitingReply => SessionAction::Recv,
            SessionState::Draining => SessionAction::Close,
            SessionState::Closed => SessionAction::Finish,
        }
    }

    /// Ends the exchange with a failure.
    fn fail(&mut self, error: KnotError)
        ensures
            final(self)@ == old(self)@.failed(error),
    {
        let state = match self.state {
            SessionState::Disconnected | SessionState::Closed => SessionState::Closed,
            _ => SessionState::Draining,
        };
        let failure = match self.failure {
            Some(first) => Some(first),
            None => Some(error),
        };
        let mut flags: Option<String> = None;
        let mut filter: Option<String> = None;
        proof {
            use_type_invariant(&*self);
        }
        core::mem::swap(&mut self.flags, &mut flags);
        core::mem::swap(&mut self.filter, &mut filter);
        *self = KnotCtx {
            state,
            timeout: self.timeout,
            terminator_due: false,
            flags,
            filter,
            registry: MetricRegistry::new(),
            failure,
        };
    }

    /// Takes in what came of the last action.
    pub fn step(&mut self, event: SessionEvent)
        ensures
            final(self)@ == old(self)@.stepped(event@),
    {
        proof {
            use_type_invariant(&*self);
        }
        match (self.state, event) {
            (SessionState::Closed, _) => {},
            (SessionState::Disconnected, SessionEvent::Connected) => {
                self.state = SessionState::Connected;
            },
            (SessionState::Disconnected, SessionEvent::ConnectFailed) => {
                self.fail(KnotError::Connect);
            },
            (SessionState::Connected, SessionEvent::Sent) => {
                if self.terminator_due {
                    self.terminator_due = false;
                    self.state = SessionState::AwaitingReply;
                } else {
                    self.terminator_due = true;
                }
            },
            (SessionState::Connected, SessionEvent::SendFailed) => {
                self.fail(KnotError::Send);
            },
            (SessionState::AwaitingReply, SessionEvent::Frame(kind, fields)) => {
                match kind {
                    KnotCtlType::DATA | KnotCtlType::EXTRA => {
                        let mut registry = MetricRegistry::new();
                        core::mem::swap(&mut self.registry, &mut registry);
                        match route(&mut registry, &fields) {
                            Ok(()) => {
                                self.registry = registry;
                            },
                            Err(error) => {
                                self.fail(error);
                            },
                        }
                    },
                    KnotCtlType::BLOCK => {
                        self.state = SessionState::Draining;
                    },
                    KnotCtlType::END => {
                        self.fail(KnotError::Protocol);
                    },
                }
            },
            (SessionState::AwaitingReply, SessionEvent::UnknownFrame) => {
                self.fail(KnotError::Protocol);
            },
            (SessionState::AwaitingReply, SessionEvent::RecvFailed) => {
                self.fail(KnotError::Receive);
            },
            (SessionState::Draining, SessionEvent::Closed) => {
                self.state = SessionState::Closed;
            },
            _ => {
                self.fail(KnotError::Protocol);
            },
        }
    }

    /// The failure of the session as a result.
    fn outcome(&self) -> (outcome: KnotResult<()>)
        ensures
            outcome == match self@.failure {
                Some(error) => Err::<(), KnotError>(error),
                None => Ok::<(), KnotError>(()),
            },
    {
        match self.failure {
            Some(error) => Err(error),
            None => Ok(()),
        }
    }

    /// Takes in whether the channel was opened, and says whether the session
    /// can go on.
    pub fn connect(&mut self, opened: bool) -> (outcome: KnotResult<()>)
        ensures
            final(self)@ == old(self)@.stepped(
                if opened {
                    Occurrence::Connected
                } else {
                    Occurrence::ConnectFailed
                },
            ),
            outcome == match final(self)@.failure {
                Some(error) => Err::<(), KnotError>(error),
                None => Ok::<(), KnotError>(()),
            },
    {
        if opened {
            self.step(SessionEvent::Connected);
        } else {
            self.step(SessionEvent::ConnectFailed);
        }
        self.outcome()
    }

    /// Takes in whether the frame of the pending action was sent, and says
    /// whether the session can go on.
    pub fn send(&mut self, sent: bool) -> (outcome: KnotResult<()>)
        ensures
            final(self)@ == old(self)@.stepped(
                if sent {
                    Occurrence::Sent
                } else {
                    Occurrence::SendFailed
                },
            ),
            outcome == match final(self)@.failure {
                Some(error) => Err::<(), KnotError>(error),
                None => Ok::<(), KnotError>(()),
            },
    {
        if sent {
            self.step(SessionEvent::Sent);
        } else {
            self.step(SessionEvent::SendFailed);
        }
        self.outcome()
    }

    /// Takes in the frame that was received, or that none was, and says
    /// whether the session can go on.
    pub fn recv(&mut self, frame: Option<(KnotCtlType, KnotCtlData)>) -> (outcome: KnotResult<()>)
        ensures
            final(self)@ == old(self)@.stepped(
                match frame {
                    Some((kind, fields)) => Occurrence::Frame(kind, fields@),
                    None => Occurrence::RecvFailed,
                },
            ),
            outcome == match final(self)@.failure {
                Some(error) => Err::<(), KnotError>(error),
                None => Ok::<(), KnotError>(()),
            },
    {
        match frame {
            Some((kind, fields)) => {
                self.step(SessionEvent::Frame(kind, fields));
            },
            None => {
                self.step(SessionEvent::RecvFailed);
            },
        }
        self.outcome()
    }

    /// Takes in that the channel was released.
    pub fn close(&mut self)
        ensures
            final(self)@ == old(self)@.stepped(Occurrence::Closed),
    {
        self.step(SessionEvent::Closed);
    }

    /// The observations of the reply, once the reply has ended and nothing
    /// has failed. A reply that is not whole is not handed out.
    pub fn registry(&self) -> (registry: Option<&MetricRegistry>)
        ensures
            registry is Some <==> self@.complete(),
            registry matches Some(held) ==> held@ == self@.series,
    {
        match (self.failure, self.state) {
            (None, SessionState::Draining) | (None, SessionState::Closed) => Some(&self.registry),
            _ => None,
        }
    }

    /// The rendered snapshot of the scrape.
    ///
    /// A session that failed gives its failure, and a session whose reply
    /// has not ended gives `Receive`: no text is made of a part of a reply.
    /// Otherwise the text is what the metrics library writes for the
    /// observations if it accepts them all, and `Export` if it refuses one;
    /// it does not refuse when there are no observations, for which the text
    /// is empty.
    pub fn snapshot(&self) -> (outcome: KnotResult<String>)
        ensures
            outcome matches Ok(text) ==> self@.snapshot() == Ok::<Seq<char>, KnotError>(text@),
            outcome matches Err(error) ==> self@.snapshot() == Err::<Seq<char>, KnotError>(error),
            self@.failure matches Some(error) ==> outcome == Err::<String, KnotError>(error),
            self@.failure is None && !self@.complete() ==> outcome == Err::<String, KnotError>(
                KnotError::Receive,
            ),
            self@.complete() ==> (outcome matches Ok(text) ==> text@ == snapshot_text(
                self@.series,
            )),
            self@.complete() ==> (outcome matches Err(error) ==> error == KnotError::Export),
            self@.complete() ==> (outcome is Ok <==> all_accepted(self@.series)),
            self@.complete() && self@.series.len() == 0 ==> outcome is Ok && outcome.unwrap()@.len()
                == 0,
    {
        if let Some(error) = self.failure {
            return Err(error);
        }
        match self.registry() {
            Some(registry) => render(registry),
            None => Err(KnotError::Receive),
        }
    }
}

/// The events of an exchange that goes as the protocol says: the channel
/// opens, the two frames of the request are sent, the frames of the reply
/// arrive, then the frame that ends it, and the channel is released.
pub open spec fn exchange(
    reply: Seq<(KnotCtlType, Map<KnotCtlIdx, Seq<char>>)>,
    last: Map<KnotCtlIdx, Seq<char>>,
) -> Seq<Occurrence> {
    seq![Occurrence::Connected, Occurrence::Sent, Occurrence::Sent] + Seq::new(
        reply.len(),
        |i: int| Occurrence::Frame(reply[i].0, reply[i].1),
    ) + seq![Occurrence::Frame(KnotCtlType::BLOCK, last), Occurrence::Closed]
}

/// The records of the frames of a reply.
pub open spec fn records(reply: Seq<(KnotCtlType, Map<KnotCtlIdx, Seq<char>>)>) -> Seq<
    Map<KnotCtlIdx, Seq<char>>,
> {
    Seq::new(reply.len(), |i: int| reply[i].1)
}

/// Whether every frame of a reply carries a record.
pub open spec fn carries_records(reply: Seq<(KnotCtlType, Map<KnotCtlIdx, Seq<char>>)>) -> bool {
    forall|i: int|
        0 <= i < reply.len() ==> (#[trigger] reply[i]).0 == KnotCtlType::DATA || reply[i].0
            == KnotCtlType::EXTRA
}

/// A session stays consistent, whatever happens.
pub proof fn lemma_stepped_consistent(session: Session, event: Occurrence)
    requires
        session.consistent(),
    ensures
        session.stepped(event).consistent(),
{
}

/// A run of events in two halves.
pub proof fn lemma_run_split(session: Session, first: Seq<Occurrence>, second: Seq<Occurrence>)
    ensures
        session.run(first + second) == session.run(first).run(second),
    decreases first.len(),
{
    if first.len() > 0 {
        assert((first + second).drop_first() =~= first.drop_first() + second);
        lemma_run_split(session.stepped(first[0]), first.drop_first(), second);
    }
}

/// A failure is final: whatever follows, the session keeps its first
/// failure and holds no observation.
pub proof fn lemma_failure_is_final(session: Session, events: Seq<Occurrence>)
    requires
        session.consistent(),
        session.failure is Some,
    ensures
        session.run(events).failure == session.failure,
        session.run(events).series.len() == 0,
        session.run(events).consistent(),
        !session.run(events).complete(),
    decreases events.len(),
{
    if events.len() > 0 {
        lemma_failure_is_final(session.stepped(events[0]), events.drop_first());
    }
}

/// Without the frame that ends the reply there is no snapshot: a session
/// that has seen no such frame is not complete, however its channel fared.
pub proof fn lemma_incomplete_without_block(session: Session, events: Seq<Occurrence>)
    requires
        !session.complete(),
        forall|i: int|
            0 <= i < events.len() ==> !((#[trigger] events[i]) matches Occurrence::Frame(
                KnotCtlType::BLOCK,
                _,
            )),
    ensures
        !session.run(events).complete(),
    decreases events.len(),
{
    if events.len() > 0 {
        let rest = events.drop_first();
        assert forall|i: int| 0 <= i < rest.len() implies !((#[trigger] rest[i])
            matches Occurrence::Frame(KnotCtlType::BLOCK, _)) by {}
        lemma_incomplete_without_block(session.stepped(events[0]), rest);
    }
}

/// A channel that fails or closes while the reply is awaited ends the
/// session with `Receive`, and nothing that follows brings a snapshot.
pub proof fn lemma_early_close_fails(session: Session, events: Seq<Occurrence>)
    requires
        session.consistent(),
        session.failure is None,
        session.state == SessionState::AwaitingReply,
    ensures
        session.stepped(Occurrence::RecvFailed).run(events).failure == Some(KnotError::Receive),
        !session.stepped(Occurrence::RecvFailed).run(events).complete(),
{
    lemma_failure_is_final(session.stepped(Occurrence::RecvFailed), events);
}

/// An open channel is released before the session is over: a session
/// whose channel is open has nothing left to do only after the event that
/// reports the release, and a failure while the channel is open asks for
/// the release next.
pub proof fn lemma_open_channel_is_released(session: Session, event: Occurrence)
    requires
        session.consistent(),
        session.state != SessionState::Disconnected,
        session.state != SessionState::Closed,
    ensures
        session.stepped(event).pending() is Finish ==> session.state == SessionState::Draining
            && event is Closed,
        session.stepped(event).failure is Some && !(event is Closed) ==> session.stepped(
            event,
        ).pending() is Close,
{
}

/// The request is two frames: the command in a frame of kind `DATA`, then a
/// frame of kind `BLOCK` without fields. After them the reply is awaited.
pub proof fn lemma_request_is_two_frames(flags: Option<Seq<char>>, filter: Option<Seq<char>>)
    ensures
        ({
            let opened = Session::fresh(flags, filter).stepped(Occurrence::Connected);
            &&& opened.pending() == Action::Send(
                KnotCtlType::DATA,
                Some(command_fields(flags, filter)),
            )
            &&& opened.stepped(Occurrence::Sent).pending() == Action::Send(KnotCtlType::BLOCK, None)
            &&& opened.stepped(Occurrence::Sent).stepped(Occurrence::Sent).pending() is Recv
            &&& command_fields(flags, filter)[KnotCtlIdx::CMD] == "zone-status"@
            &&& command_fields(flags, filter).contains_key(KnotCtlIdx::FLAGS) == (flags is Some)
            &&& command_fields(flags, filter).contains_key(KnotCtlIdx::FILTER) == (filter is Some)
        }),
{
}

/// What the frames of a reply make of a session that awaits them.
proof fn lemma_reply_collects(
    session: Session,
    reply: Seq<(KnotCtlType, Map<KnotCtlIdx, Seq<char>>)>,
)
    requires
        session.consistent(),
        session.failure is None,
        session.state == SessionState::AwaitingReply,
        carries_records(reply),
    ensures
        ({
            let after = session.run(Seq::new(reply.len(), |i: int| Occurrence::Frame(reply[i].0, reply[i].1)));
            match collected(session.series, records(reply)) {
                Ok(series) => after == (Session { series, ..session }),
                Err(error) => after == session.failed(error),
            }
        }),
    decreases reply.len(),
{
    let events = Seq::new(reply.len(), |i: int| Occurrence::Frame(reply[i].0, reply[i].1));
    if reply.len() > 0 {
        let rest = reply.drop_first();
        let rest_events = Seq::new(rest.len(), |i: int| Occurrence::Frame(rest[i].0, rest[i].1));
        assert(events.drop_first() =~= rest_events);
        assert(records(reply).drop_first() =~= records(rest));
        assert forall|i: int| 0 <= i < rest.len() implies (#[trigger] rest[i]).0
            == KnotCtlType::DATA || rest[i].0 == KnotCtlType::EXTRA by {}
        let next = session.stepped(events[0]);
        match routed(session.series, reply[0].1) {
            Ok(series) => {
                lemma_reply_collects(next, rest);
            },
            Err(error) => {
                lemma_failure_is_final(next, rest_events);
                lemma_failed_stays(next, rest_events);
            },
        }
    }
}

/// A session that failed while its channel was open waits for the release
/// and is moved by nothing else.
proof fn lemma_failed_stays(session: Session, events: Seq<Occurrence>)
    requires
        session.failure is Some,
        session.state == SessionState::Draining,
        session.series.len() == 0,
        !session.terminator_due,
        forall|i: int| 0 <= i < events.len() ==> !((#[trigger] events[i]) is Closed),
    ensures
        session.run(events) == session,
    decreases events.len(),
{
    if events.len() > 0 {
        let rest = events.drop_first();
        assert forall|i: int| 0 <= i < rest.len() implies !((#[trigger] rest[i]) is Closed) by {}
        assert(session.stepped(events[0]).series =~= session.series);
        lemma_failed_stays(session, rest);
    }
}

/// What a scrape yields depends on the reply alone. An exchange that goes
/// as the protocol says, on a new session, ends closed; it is complete and
/// holds the observations that the records of the reply collect, or it has
/// failed with the error of the first record that fails. So the same reply
/// on another new session yields the same, and nothing is carried over from
/// one session to the next.
pub proof fn lemma_exchange_collects(
    flags: Option<Seq<char>>,
    filter: Option<Seq<char>>,
    reply: Seq<(KnotCtlType, Map<KnotCtlIdx, Seq<char>>)>,
    last: Map<KnotCtlIdx, Seq<char>>,
)
    requires
        carries_records(reply),
    ensures
        ({
            let end = Session::fresh(flags, filter).run(exchange(reply, last));
            match collected(Seq::empty(), records(reply)) {
                Ok(series) => end.complete() && end.series == series && end.state
                    == SessionState::Closed,
                Err(error) => end.failure == Some(error) && end.series.len() == 0 && end.state
                    == SessionState::Closed,
            }
        }),
{
    let start = Session::fresh(flags, filter);
    let opening = seq![Occurrence::Connected, Occurrence::Sent, Occurrence::Sent];
    let frames = Seq::new(reply.len(), |i: int| Occurrence::Frame(reply[i].0, reply[i].1));
    let closing = seq![Occurrence::Frame(KnotCtlType::BLOCK, last), Occurrence::Closed];
    let awaiting = Session { state: SessionState::AwaitingReply, ..start };
    assert(start.run(opening) == awaiting) by {
        reveal_with_fuel(Session::run, 4);
    }
    lemma_reply_collects(awaiting, reply);
    let replied = awaiting.run(frames);
    assert(replied.run(closing) == replied.stepped(closing[0]).stepped(Occurrence::Closed)) by {
        reveal_with_fuel(Session::run, 3);
    }
    lemma_run_split(start, opening + frames, closing);
    lemma_run_split(start, opening, frames);
}

/// The snapshot of a scrape depends on the reply alone: it is what
/// rendering makes of the observations that the records of the reply
/// collect, or the error of the first record that fails. So the same reply
/// on another new session yields the same snapshot: where the first scrape
/// gave a text, the second gives that text.
pub proof fn lemma_snapshot_depends_on_reply(
    flags: Option<Seq<char>>,
    filter: Option<Seq<char>>,
    reply: Seq<(KnotCtlType, Map<KnotCtlIdx, Seq<char>>)>,
    last: Map<KnotCtlIdx, Seq<char>>,
)
    requires
        carries_records(reply),
    ensures
        Session::fresh(flags, filter).run(exchange(reply, last)).snapshot() == match collected(
            Seq::empty(),
            records(reply),
        ) {
            Ok(series) => rendering(series),
            Err(error) => Err(error),
        },
{
    lemma_exchange_collects(flags, filter, reply, last);
}

} // verus!
