//! A single-slot, latest-value mailbox: the engine's model of its
//! edge-triggered signals. Posting overwrites whatever was pending, so any
//! number of posts before a consume collapse to one observation; consuming
//! empties the slot.

use vstd::prelude::*;

verus! {

/// At most one pending value; a later post supersedes an earlier one.
pub struct Mailbox<T> {
    slot: Option<T>,
}

impl<T> View for Mailbox<T> {
    type V = Option<T>;

    closed spec fn view(&self) -> Option<T> {
        self.slot
    }
}

impl<T> Mailbox<T> {
    /// An empty mailbox: nothing pending.
    pub fn new() -> (m: Self)
        ensures
            m@ is None,
    {
        Mailbox { slot: None }
    }

    /// Posts a value, superseding any pending one.
    pub fn post(&mut self, v: T)
        ensures
            final(self)@ == Some(v),
    {
        self.slot = Some(v);
    }

    /// Whether a value is pending, without consuming it.
    pub fn signaled(&self) -> (r: bool)
        ensures
            r == (self@ is Some),
    {
        self.slot.is_some()
    }

    /// Consumes the pending value, if any, leaving the slot empty.
    pub fn take(&mut self) -> (r: Option<T>)
        ensures
            r == old(self)@,
            final(self)@ is None,
    {
        self.slot.take()
    }
}

} // verus!
