//! Counters that a node keeps for its end-of-run summary.

use crate::decision::Acceptance;
use vstd::prelude::*;

verus! {

/// One more, unless the counter is at its end.
pub open spec fn bumped(n: u64) -> u64 {
    if n == u64::MAX {
        n
    } else {
        (n + 1) as u64
    }
}

/// Adds one to a counter, stopping at `u64::MAX`.
pub fn bump(n: u64) -> (m: u64)
    ensures
        m == bumped(n),
{
    if n == u64::MAX {
        n
    } else {
        n + 1
    }
}

/// How many messages got each verdict.
#[derive(Debug, Clone, Copy, PartialEq, Eq, Structural)]
pub struct Counters {
    pub accepted: u64,
    pub rejected: u64,
    pub ignored: u64,
    pub quarantined_peers: u64,
}

impl Counters {
    /// All counters at zero.
    pub open spec fn zero() -> Counters {
        Counters { accepted: 0, rejected: 0, ignored: 0, quarantined_peers: 0 }
    }

    /// The counters after a message with the given verdict.
    pub open spec fn counted(self, acceptance: Acceptance) -> Counters {
        match acceptance {
            Acceptance::Accept => Counters { accepted: bumped(self.accepted), ..self },
            Acceptance::Reject => Counters { rejected: bumped(self.rejected), ..self },
            Acceptance::Ignore => Counters { ignored: bumped(self.ignored), ..self },
        }
    }

    /// Counts a message with the given verdict.
    pub fn record(&mut self, acceptance: Acceptance)
        ensures
            *final(self) == old(self).counted(acceptance),
    {
        match acceptance {
            Acceptance::Accept => {
                self.accepted = bump(self.accepted);
            },
            Acceptance::Reject => {
                self.rejected = bump(self.rejected);
            },
            Acceptance::Ignore => {
                self.ignored = bump(self.ignored);
            },
        }
    }
}

impl Default for Counters {
    fn default() -> (counters: Counters)
        ensures
            counters == Counters::zero(),
    {
        Counters { accepted: 0, rejected: 0, ignored: 0, quarantined_peers: 0 }
    }
}

/// What a node knows of the traffic of one peer.
#[derive(Debug, Clone, Copy, PartialEq, Eq, Structural)]
pub struct PeerMetrics {
    /// Score, in thousandths of a point.
    pub score: i64,
    pub messages_sent: u64,
    pub messages_rejected: u64,
}

} // verus!
