//! The policy monitor's decisions: whether a freshly ranked best candidate
//! becomes the new persisted baseline, and when a rescan should be asked for.
//! The timers and signals themselves run outside; this module computes what
//! they should do.

use vstd::prelude::*;

use crate::candidate::{same_addr, spec_cmp, WifiConfig};
use crate::machine::LinkState;

verus! {

/// While connected with no new best found, rescan after this long an idle.
pub const RESCAN_IDLE_SECS: u64 = 3600;

/// While chronically disconnected, rescan after this delay, so a blackout is
/// answered by re-discovery rather than by retrying one failed candidate.
pub const RESCAN_RETRY_SECS: u64 = 300;

/// How often the monitor loop polls between decisions.
pub const MONITOR_POLL_SECS: u64 = 10;

/// Whether a freshly ranked best replaces the persisted baseline: there was
/// none, or the best is the baseline itself (confirming it), or it ranks
/// strictly ahead of the baseline.
pub open spec fn should_persist(best: Option<WifiConfig>, baseline: Option<WifiConfig>) -> bool {
    match (best, baseline) {
        (None, _) => false,
        (Some(_), None) => true,
        (Some(c), Some(p)) => same_addr(c, p) || spec_cmp(c, p) == core::cmp::Ordering::Greater,
    }
}

/// When the monitor schedules the next rescan request.
#[derive(Clone, Copy, PartialEq, Eq, Structural, Debug)]
pub enum ScanSchedule {
    /// Connected, nothing new found: request one after the long idle timer,
    /// unless a disconnect notification arrives first.
    AfterIdleTimeout,
    /// Disconnected: wait the medium delay, then request one unconditionally.
    AfterRetryDelay,
    /// Connected and a new best was already found: nothing to schedule.
    NotScheduled,
}

/// The policy monitor's state: the candidate it believes is persisted, and
/// whether any scan so far produced a new best.
pub struct PolicyMonitor {
    pub baseline: Option<WifiConfig>,
    pub new_best_found: bool,
}

impl PolicyMonitor {
    /// Starts from whatever the persistence gateway loaded at boot.
    pub fn new(persisted: Option<WifiConfig>) -> (m: Self)
        ensures
            m.baseline == persisted,
            !m.new_best_found,
    {
        PolicyMonitor { baseline: persisted, new_best_found: false }
    }

    /// Decides, after a scan completed, whether the store's best candidate
    /// becomes the new persisted baseline. Returns the candidate to hand to
    /// the persistence gateway, or nothing when the old baseline stands.
    pub fn on_scan_complete(&mut self, best: Option<WifiConfig>) -> (persist: Option<WifiConfig>)
        ensures
            persist == (if should_persist(best, old(self).baseline) {
                best
            } else {
                None::<WifiConfig>
            }),
            final(self).baseline == (if should_persist(best, old(self).baseline) {
                best
            } else {
                old(self).baseline
            }),
            final(self).new_best_found == (old(self).new_best_found || should_persist(
                best,
                old(self).baseline,
            )),
    {
        match best {
            None => None,
            Some(c) => {
                let take = match &self.baseline {
                    None => true,
                    Some(p) => c.same_entity(p) || matches!(c.cmp(p), core::cmp::Ordering::Greater),
                };
                if take {
                    self.new_best_found = true;
                    self.baseline = Some(c.clone());
                    Some(c)
                } else {
                    None
                }
            },
        }
    }

    /// When to ask for the next rescan, given the link state: an hour of
    /// idle while connected with nothing new, a medium delay while
    /// disconnected, nothing once a new best was found on a standing link.
    pub fn rescan_schedule(&self, link: LinkState) -> (s: ScanSchedule)
        ensures
            s == (match link {
                LinkState::Connected => if self.new_best_found {
                    ScanSchedule::NotScheduled
                } else {
                    ScanSchedule::AfterIdleTimeout
                },
                LinkState::Disconnected => ScanSchedule::AfterRetryDelay,
            }),
    {
        match link {
            LinkState::Connected => {
                if self.new_best_found {
                    ScanSchedule::NotScheduled
                } else {
                    ScanSchedule::AfterIdleTimeout
                }
            },
            LinkState::Disconnected => ScanSchedule::AfterRetryDelay,
        }
    }
}

} // verus!
