//! The errors of a control session.

use vstd::prelude::*;

verus! {

/// Why a control session failed. Every failure ends the session; none leaves
/// a partial snapshot behind.
#[derive(Clone, Copy, Debug, PartialEq, Eq, Structural)]
pub enum KnotError {
    /// The channel could not be opened.
    Connect,
    /// A frame could not be sent.
    Send,
    /// No frame could be received: the channel failed or was closed early.
    Receive,
    /// The daemon broke the protocol: a frame of an unexpected kind, a record
    /// without one of its mandatory fields, or an answer that nothing asked for.
    Protocol,
    /// A metric was registered a second time for the same zone.
    Duplicate,
    /// A metric was registered with a help text other than that of its family.
    Conflict,
    /// The metrics could not be rendered.
    Export,
}

pub type KnotResult<T> = Result<T, KnotError>;

} // verus!
