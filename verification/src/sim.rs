//! The plan of a simulation run and the totals of its outcome.
//!
//! The harness spawns the nodes, runs the timers and sends the messages.
//! What it spawns, and what it adds up at the end, is decided here.

use crate::cli::Cli;
use crate::p2p::{NodeConfig, NodeSummary};
use vstd::prelude::*;

verus! {

/// Nanoseconds per second.
pub const NANOS_PER_SECOND: u64 = 1_000_000_000;

/// How one node publishes.
#[derive(Debug, Clone, Copy, PartialEq, Eq, Structural)]
pub struct PublisherPlan {
    /// Index of the node.
    pub node: usize,
    /// Whether the node is an attacker.
    pub is_bad: bool,
    /// Seed of the node's traffic generator.
    pub seed: u64,
    /// Messages per second.
    pub rate: u64,
    /// Time between two messages, in nanoseconds.
    pub interval_nanos: u64,
    /// The size limit that attackers aim around, in bytes.
    pub max_message_bytes: usize,
}

/// Sum of two counters, stopping at `u64::MAX`.
pub open spec fn capped_sum(a: u64, b: u64) -> u64 {
    if a + b > u64::MAX {
        u64::MAX
    } else {
        (a + b) as u64
    }
}

/// Computes [`capped_sum`].
pub fn add_capped(a: u64, b: u64) -> (sum: u64)
    ensures
        sum == capped_sum(a, b),
{
    if a > u64::MAX - b {
        u64::MAX
    } else {
        a + b
    }
}

impl Cli {
    /// Number of nodes in the run: at least one.
    pub open spec fn spec_peer_count(self) -> usize {
        if self.peers == 0 {
            1
        } else {
            self.peers
        }
    }

    /// Number of attackers in the run: no more than there are nodes.
    pub open spec fn spec_bad_peer_count(self) -> usize {
        if self.bad_peers > self.spec_peer_count() {
            self.spec_peer_count()
        } else {
            self.bad_peers
        }
    }

    /// Whether node `idx` is an attacker: the attackers come first.
    pub open spec fn spec_is_bad(self, idx: usize) -> bool {
        idx < self.spec_bad_peer_count()
    }

    /// Messages per second of node `idx`.
    pub open spec fn spec_rate(self, idx: usize) -> u64 {
        if self.spec_is_bad(idx) {
            self.spam_per_sec
        } else {
            self.publish_per_sec
        }
    }

    /// Time between two messages at `rate` messages per second, in whole
    /// nanoseconds. A rate of zero counts as one. Above a message per
    /// nanosecond the time is zero, which no timer takes.
    pub open spec fn spec_interval_nanos(rate: u64) -> u64 {
        if rate == 0 {
            NANOS_PER_SECOND
        } else {
            (NANOS_PER_SECOND / rate) as u64
        }
    }

    /// How node `idx` publishes.
    pub open spec fn spec_publisher(self, idx: usize) -> PublisherPlan {
        PublisherPlan {
            node: idx,
            is_bad: self.spec_is_bad(idx),
            seed: ((self.seed + idx) % 0x1_0000_0000_0000_0000) as u64,
            rate: self.spec_rate(idx),
            interval_nanos: Cli::spec_interval_nanos(self.spec_rate(idx)),
            max_message_bytes: self.max_message_bytes,
        }
    }

    /// Number of nodes in the run: at least one.
    pub fn peer_count(&self) -> (n: usize)
        ensures
            n == self.spec_peer_count(),
            n >= 1,
    {
        if self.peers == 0 {
            1
        } else {
            self.peers
        }
    }

    /// Number of attackers in the run: no more than there are nodes.
    pub fn bad_peer_count(&self) -> (n: usize)
        ensures
            n == self.spec_bad_peer_count(),
            n <= self.spec_peer_count(),
    {
        let peers = self.peer_count();
        if self.bad_peers > peers {
            peers
        } else {
            self.bad_peers
        }
    }

    /// Number of honest nodes in the run.
    pub fn honest_peer_count(&self) -> (n: usize)
        ensures
            n == self.spec_peer_count() - self.spec_bad_peer_count(),
    {
        self.peer_count() - self.bad_peer_count()
    }

    /// The configuration of node `idx`. Every node is on the topic
    /// `test-topic`.
    pub fn node_config(&self, idx: usize) -> (cfg: NodeConfig)
        ensures
            cfg.idx == idx,
            cfg.topic@ == "test-topic"@,
            cfg.max_message_bytes == self.max_message_bytes,
    {
        NodeConfig {
            idx,
            topic: "test-topic".to_owned(),
            max_message_bytes: self.max_message_bytes,
        }
    }

    /// How node `idx` publishes: attackers at the spam rate, the others
    /// at the honest rate, each with a seed of its own.
    pub fn publisher(&self, idx: usize) -> (plan: PublisherPlan)
        ensures
            plan == self.spec_publisher(idx),
    {
        let is_bad = idx < self.bad_peer_count();
        let rate = if is_bad {
            self.spam_per_sec
        } else {
            self.publish_per_sec
        };
        let interval_nanos: u64 = if rate == 0 {
            NANOS_PER_SECOND
        } else {
            NANOS_PER_SECOND / rate
        };
        PublisherPlan {
            node: idx,
            is_bad,
            seed: self.seed.wrapping_add(idx as u64),
            rate,
            interval_nanos,
            max_message_bytes: self.max_message_bytes,
        }
    }
}

/// What all nodes of a run saw, added up.
#[derive(Debug, Clone, Copy, PartialEq, Eq, Structural)]
pub struct SimulationTotals {
    pub accepted: u64,
    pub rejected: u64,
    pub ignored: u64,
    pub quarantined: u64,
    pub honest_accepted: u64,
    pub honest_rejected: u64,
}

impl SimulationTotals {
    /// Nothing seen.
    pub open spec fn zero() -> SimulationTotals {
        SimulationTotals {
            accepted: 0,
            rejected: 0,
            ignored: 0,
            quarantined: 0,
            honest_accepted: 0,
            honest_rejected: 0,
        }
    }

    /// The totals with the summary of one more node.
    pub open spec fn plus(self, summary: NodeSummary) -> SimulationTotals {
        SimulationTotals {
            accepted: capped_sum(self.accepted, summary.accepted),
            rejected: capped_sum(self.rejected, summary.rejected),
            ignored: capped_sum(self.ignored, summary.ignored),
            quarantined: capped_sum(self.quarantined, summary.quarantined_peers),
            honest_accepted: capped_sum(self.honest_accepted, summary.honest_accepted),
            honest_rejected: capped_sum(self.honest_rejected, summary.honest_rejected),
        }
    }

    /// The totals of a list of summaries.
    pub open spec fn of(summaries: Seq<NodeSummary>) -> SimulationTotals
        decreases summaries.len(),
    {
        if summaries.len() == 0 {
            SimulationTotals::zero()
        } else {
            SimulationTotals::of(summaries.drop_last()).plus(summaries.last())
        }
    }

    /// Messages judged in all.
    pub open spec fn spec_messages(self) -> u64 {
        capped_sum(capped_sum(self.accepted, self.rejected), self.ignored)
    }

    /// Adds up the summaries of the nodes of a run.
    pub fn collect(summaries: &Vec<NodeSummary>) -> (totals: SimulationTotals)
        ensures
            totals == SimulationTotals::of(summaries@),
    {
        let mut totals = SimulationTotals {
            accepted: 0,
            rejected: 0,
            ignored: 0,
            quarantined: 0,
            honest_accepted: 0,
            honest_rejected: 0,
        };
        let n = summaries.len();
        let mut i: usize = 0;
        assert(summaries@.subrange(0, 0) =~= Seq::<NodeSummary>::empty());
        while i < n
            invariant
                n == summaries@.len(),
                i <= n,
                totals == SimulationTotals::of(summaries@.subrange(0, i as int)),
            decreases n - i,
        {
            assert(summaries@.subrange(0, i + 1).drop_last() =~= summaries@.subrange(0, i as int));
            let s = summaries[i];
            totals = SimulationTotals {
                accepted: add_capped(totals.accepted, s.accepted),
                rejected: add_capped(totals.rejected, s.rejected),
                ignored: add_capped(totals.ignored, s.ignored),
                quarantined: add_capped(totals.quarantined, s.quarantined_peers),
                honest_accepted: add_capped(totals.honest_accepted, s.honest_accepted),
                honest_rejected: add_capped(totals.honest_rejected, s.honest_rejected),
            };
            i += 1;
        }
        assert(summaries@.subrange(0, n as int) =~= summaries@);
        totals
    }

    /// Messages judged in all.
    pub fn messages(&self) -> (n: u64)
        ensures
            n == self.spec_messages(),
    {
        add_capped(add_capped(self.accepted, self.rejected), self.ignored)
    }
}

} // verus!
