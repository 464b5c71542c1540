//! Frames of the control protocol: the kind of a frame, the closed set of
//! field slots, and the record of optional strings that a frame carries.

use vstd::prelude::*;

verus! {

/// The kind of a frame.
#[allow(non_camel_case_types)]
#[derive(Clone, Copy, Debug, PartialEq, Eq, Structural)]
pub enum KnotCtlType {
    /// Ends the conversation. A client never sends it and expects none.
    END,
    /// One full record.
    DATA,
    /// A record that continues the last `DATA` record.
    EXTRA,
    /// Ends a request or a reply.
    BLOCK,
}

/// The field slots of a frame. The set is closed.
#[allow(non_camel_case_types)]
#[derive(Clone, Copy, Debug, PartialEq, Eq, Hash, Structural)]
pub enum KnotCtlIdx {
    CMD,
    DATA,
    ERROR,
    FILTER,
    FLAGS,
    ID,
    ITEM,
    OWNER,
    SECTION,
    TTL,
    TYPE,
    ZONE,
}

/// The fields of one frame: a string for each slot that is present. A slot
/// that is absent holds nothing, which differs from an empty string.
#[derive(Debug)]
pub struct KnotCtlData {
    cmd: Option<String>,
    data: Option<String>,
    error: Option<String>,
    filter: Option<String>,
    flags: Option<String>,
    id: Option<String>,
    item: Option<String>,
    owner: Option<String>,
    section: Option<String>,
    ttl: Option<String>,
    kind: Option<String>,
    zone: Option<String>,
}

impl KnotCtlData {
    /// What one slot holds.
    pub closed spec fn slot(self, idx: KnotCtlIdx) -> Option<String> {
        match idx {
            KnotCtlIdx::CMD => self.cmd,
            KnotCtlIdx::DATA => self.data,
            KnotCtlIdx::ERROR => self.error,
            KnotCtlIdx::FILTER => self.filter,
            KnotCtlIdx::FLAGS => self.flags,
            KnotCtlIdx::ID => self.id,
            KnotCtlIdx::ITEM => self.item,
            KnotCtlIdx::OWNER => self.owner,
            KnotCtlIdx::SECTION => self.section,
            KnotCtlIdx::TTL => self.ttl,
            KnotCtlIdx::TYPE => self.kind,
            KnotCtlIdx::ZONE => self.zone,
        }
    }

    /// The text of one slot, if the slot is present.
    pub open spec fn field(self, idx: KnotCtlIdx) -> Option<Seq<char>> {
        match self.slot(idx) {
            Some(text) => Some(text@),
            None => None,
        }
    }

    /// A record with no slot present.
    pub fn new() -> (record: Self)
        ensures
            record@ == Map::<KnotCtlIdx, Seq<char>>::empty(),
    {
        KnotCtlData {
            cmd: None,
            data: None,
            error: None,
            filter: None,
            flags: None,
            id: None,
            item: None,
            owner: None,
            section: None,
            ttl: None,
            kind: None,
            zone: None,
        }
    }

    /// Puts `value` into a slot and returns what the slot held before.
    pub fn insert(&mut self, idx: KnotCtlIdx, value: String) -> (previous: Option<String>)
        ensures
            final(self)@ == old(self)@.insert(idx, value@),
            previous == old(self).slot(idx),
    {
        let mut held = Some(value);
        match idx {
            KnotCtlIdx::CMD => core::mem::swap(&mut self.cmd, &mut held),
            KnotCtlIdx::DATA => core::mem::swap(&mut self.data, &mut held),
            KnotCtlIdx::ERROR => core::mem::swap(&mut self.error, &mut held),
            KnotCtlIdx::FILTER => core::mem::swap(&mut self.filter, &mut held),
            KnotCtlIdx::FLAGS => core::mem::swap(&mut self.flags, &mut held),
            KnotCtlIdx::ID => core::mem::swap(&mut self.id, &mut held),
            KnotCtlIdx::ITEM => core::mem::swap(&mut self.item, &mut held),
            KnotCtlIdx::OWNER => core::mem::swap(&mut self.owner, &mut held),
            KnotCtlIdx::SECTION => core::mem::swap(&mut self.section, &mut held),
            KnotCtlIdx::TTL => core::mem::swap(&mut self.ttl, &mut held),
            KnotCtlIdx::TYPE => core::mem::swap(&mut self.kind, &mut held),
            KnotCtlIdx::ZONE => core::mem::swap(&mut self.zone, &mut held),
        }
        held
    }

    /// The string in a slot, if the slot is present.
    pub fn get(&self, idx: KnotCtlIdx) -> (held: Option<&String>)
        ensures
            held is Some <==> self@.contains_key(idx),
            held matches Some(text) ==> text@ == self@[idx],
    {
        match idx {
            KnotCtlIdx::CMD => self.cmd.as_ref(),
            KnotCtlIdx::DATA => self.data.as_ref(),
            KnotCtlIdx::ERROR => self.error.as_ref(),
            KnotCtlIdx::FILTER => self.filter.as_ref(),
            KnotCtlIdx::FLAGS => self.flags.as_ref(),
            KnotCtlIdx::ID => self.id.as_ref(),
            KnotCtlIdx::ITEM => self.item.as_ref(),
            KnotCtlIdx::OWNER => self.owner.as_ref(),
            KnotCtlIdx::SECTION => self.section.as_ref(),
            KnotCtlIdx::TTL => self.ttl.as_ref(),
            KnotCtlIdx::TYPE => self.kind.as_ref(),
            KnotCtlIdx::ZONE => self.zone.as_ref(),
        }
    }
}

impl View for KnotCtlData {
    type V = Map<KnotCtlIdx, Seq<char>>;

    /// The slots that are present, each with its text.
    open spec fn view(&self) -> Map<KnotCtlIdx, Seq<char>> {
        Map::new(|idx: KnotCtlIdx| self.field(idx) is Some, |idx: KnotCtlIdx| self.field(idx).unwrap())
    }
}

} // verus!
