//! Options of a simulation run.

use vstd::prelude::*;

verus! {

/// Options of a simulation run.
#[derive(Debug, Clone)]
pub struct Cli {
    /// Total peers in the simulation, bad ones included.
    pub peers: usize,
    /// How many of the peers, counted from the first, are attackers.
    pub bad_peers: usize,
    /// How long the simulation publishes, in seconds.
    pub duration_secs: u64,
    /// Messages per second that an honest peer publishes.
    pub publish_per_sec: u64,
    /// Messages per second that a bad peer publishes.
    pub spam_per_sec: u64,
    /// Topic named on the command line.
    pub topic: String,
    /// Seed of the traffic generators.
    pub seed: u64,
    /// Longest message that validators let pass, in bytes.
    pub max_message_bytes: usize,
}

impl Cli {
    /// The options of a run when none is given: eight peers, two of them
    /// bad, twenty seconds, five honest and fifty bad messages per second
    /// and peer, seed 1337 and a size limit of 16 KiB.
    pub open spec fn is_default(self) -> bool {
        &&& self.peers == 8
        &&& self.bad_peers == 2
        &&& self.duration_secs == 20
        &&& self.publish_per_sec == 5
        &&& self.spam_per_sec == 50
        &&& self.topic@ == "frost-sim/coordination/1"@
        &&& self.seed == 1337
        &&& self.max_message_bytes == 16384
    }
}

impl Default for Cli {
    fn default() -> (cli: Cli)
        ensures
            cli.is_default(),
    {
        Cli {
            peers: 8,
            bad_peers: 2,
            duration_secs: 20,
            publish_per_sec: 5,
            spam_per_sec: 50,
            topic: "frost-sim/coordination/1".to_owned(),
            seed: 1337,
            max_message_bytes: 16384,
        }
    }
}

} // verus!
