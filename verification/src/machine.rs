//! The connection state machine's decisions: what outcome bookkeeping a
//! finished connect attempt causes, and what a wait in the connected state
//! does when it wakes. The radio work itself (scan, associate, waits) happens
//! outside; this module computes the next state and the store updates.

use vstd::prelude::*;

use crate::candidate::ConnectOutcome;
use crate::sorting::{sort_ranked, sorted_ranked};
use crate::store::{has_addr, mark_spec, CandidateStore};

verus! {

/// How long the connect loop backs off after a failed attempt or an empty
/// store before trying again, in milliseconds.
pub const BACKOFF_MILLIS: u64 = 3000;

/// The two states of the radio link the engine distinguishes.
#[derive(Clone, Copy, PartialEq, Eq, Structural, Debug)]
pub enum LinkState {
    Disconnected,
    Connected,
}

/// What a wait in the connected state can wake on.
#[derive(Clone, Copy, PartialEq, Eq, Structural, Debug)]
pub enum ConnectedEvent {
    /// The radio reported loss of association.
    LinkLost,
    /// The external reachability probe reported failure.
    ReachabilityLost,
    /// A rescan was requested; the link stays up.
    ScanRequested,
}

/// The connection state machine: link state plus, while connected, the
/// address of the candidate the link was made with.
pub struct ConnectionMachine {
    pub state: LinkState,
    pub current: Option<[u8; 6]>,
}

impl ConnectionMachine {
    /// A current address is held exactly while connected.
    pub open spec fn wf(&self) -> bool {
        (self.state is Connected) <==> (self.current is Some)
    }

    /// The machine starts disconnected.
    pub fn new() -> (m: Self)
        ensures
            m.state is Disconnected,
            m.current is None,
            m.wf(),
    {
        ConnectionMachine { state: LinkState::Disconnected, current: None }
    }

    /// Books the outcome of a connect attempt to `addr`: the entry with that
    /// address (if still present) gets `Succeeded` or `Failed`, the store is
    /// re-sorted before the next best-pick read, and the machine moves to
    /// `Connected` exactly on success. Returns whether the address was still
    /// in the store.
    pub fn on_connect_result(
        &mut self,
        store: &mut CandidateStore,
        addr: [u8; 6],
        success: bool,
    ) -> (found: bool)
        requires
            old(self).state is Disconnected,
        ensures
            final(store)@ == sort_ranked(
                mark_spec(
                    old(store)@,
                    addr@,
                    if success {
                        ConnectOutcome::Succeeded
                    } else {
                        ConnectOutcome::Failed
                    },
                ),
            ),
            sorted_ranked(final(store)@),
            old(store).wf() ==> final(store).wf(),
            found == has_addr(old(store)@, addr@),
            final(self).state == (if success {
                LinkState::Connected
            } else {
                LinkState::Disconnected
            }),
            final(self).current == (if success {
                Some(addr)
            } else {
                None::<[u8; 6]>
            }),
            final(self).wf(),
    {
        let outcome = if success {
            ConnectOutcome::Succeeded
        } else {
            ConnectOutcome::Failed
        };
        let found = store.mark_outcome(&addr, outcome);
        store.resort();
        if success {
            self.state = LinkState::Connected;
            self.current = Some(addr);
        } else {
            self.state = LinkState::Disconnected;
            self.current = None;
        }
        found
    }

    /// Acts on what the connected-state wait woke on. Loss of the link or of
    /// reachability books `Failed` for the current address, re-sorts, and
    /// drops to `Disconnected`; the returned flag then tells the caller to
    /// notify the policy monitor of the disconnect. A scan request leaves the
    /// machine and the store alone: the caller performs the scan and merges
    /// it without tearing the link down.
    pub fn on_connected_event(
        &mut self,
        store: &mut CandidateStore,
        event: ConnectedEvent,
    ) -> (notify: bool)
        requires
            old(self).wf(),
            old(self).state is Connected,
        ensures
            final(self).wf(),
            event is ScanRequested ==> {
                &&& *final(self) == *old(self)
                &&& *final(store) == *old(store)
                &&& !notify
            },
            !(event is ScanRequested) ==> {
                &&& final(store)@ == sort_ranked(
                    mark_spec(old(store)@, old(self).current->Some_0@, ConnectOutcome::Failed),
                )
                &&& sorted_ranked(final(store)@)
                &&& (old(store).wf() ==> final(store).wf())
                &&& final(self).state is Disconnected
                &&& final(self).current is None
                &&& notify
            },
    {
        match event {
            ConnectedEvent::ScanRequested => false,
            _ => {
                let addr = self.current.unwrap();
                store.mark_outcome(&addr, ConnectOutcome::Failed);
                store.resort();
                self.state = LinkState::Disconnected;
                self.current = None;
                true
            },
        }
    }
}

} // verus!
