//! Tunables of the validation pipeline.

use vstd::prelude::*;

verus! {

/// Score units per point: scores, penalties and the quarantine threshold
/// are counted in thousandths of a point.
pub const SCORE_UNIT: i64 = 1000;

/// Default token-bucket capacity, in tokens.
pub const TOKEN_BUCKET_CAPACITY: u32 = 100;

/// Default refill rate, in tokens per second.
pub const TOKEN_REFILL_RATE: u32 = 50;

/// Default quarantine threshold: ninety points below zero.
pub const QUARANTINE_THRESHOLD: i64 = -90_000;

/// Default capacity of the peer registry.
pub const MAX_PEERS: usize = 1000;

/// Default capacity of the dedupe cache.
pub const MAX_DEDUPE_SIZE: usize = 10_000;

/// Default number of offences a peer may commit before it is quarantined
/// whatever its score.
pub const OFFENCE_HARD_CAP: u32 = 4;

/// Default growth of a penalty per earlier offence, in thousandths: each
/// offence on record makes the next penalty half a base penalty larger.
pub const OFFENCE_SCALE: u32 = 500;

/// Configuration of a validator.
#[derive(Debug, Clone, Copy, PartialEq, Eq)]
pub struct ValidatorConfig {
    /// Longest message that passes the size gate, in bytes.
    pub max_message_bytes: usize,
    /// Capacity of each peer's token bucket, in tokens.
    pub token_bucket_capacity: u32,
    /// Refill rate of each peer's token bucket, in tokens per second.
    pub token_refill_rate: u32,
    /// Score at or below which a peer is quarantined, in thousandths of a point.
    pub quarantine_threshold: i64,
    /// Most peers the registry holds. A registry always has room for the peer
    /// at hand, so a validator reads zero as one.
    pub max_peers: usize,
    /// Most content hashes the dedupe cache holds.
    pub max_dedupe: usize,
    /// Offences strictly above this number force quarantine.
    pub offence_hard_cap: u32,
    /// Growth of a penalty per earlier offence, in thousandths.
    pub offence_scale: u32,
}

impl ValidatorConfig {
    /// The default tunables with the given size gate.
    pub open spec fn with_defaults(max_message_bytes: usize) -> ValidatorConfig {
        ValidatorConfig {
            max_message_bytes,
            token_bucket_capacity: TOKEN_BUCKET_CAPACITY,
            token_refill_rate: TOKEN_REFILL_RATE,
            quarantine_threshold: QUARANTINE_THRESHOLD,
            max_peers: MAX_PEERS,
            max_dedupe: MAX_DEDUPE_SIZE,
            offence_hard_cap: OFFENCE_HARD_CAP,
            offence_scale: OFFENCE_SCALE,
        }
    }

    /// The configuration a validator works with: `self`, with room for at
    /// least one peer.
    pub open spec fn normalized(self) -> ValidatorConfig {
        ValidatorConfig { max_peers: if self.max_peers == 0 { 1 } else { self.max_peers }, ..self }
    }

    /// The default tunables with the given size gate.
    pub fn new(max_message_bytes: usize) -> (cfg: ValidatorConfig)
        ensures
            cfg == ValidatorConfig::with_defaults(max_message_bytes),
    {
        ValidatorConfig {
            max_message_bytes,
            token_bucket_capacity: TOKEN_BUCKET_CAPACITY,
            token_refill_rate: TOKEN_REFILL_RATE,
            quarantine_threshold: QUARANTINE_THRESHOLD,
            max_peers: MAX_PEERS,
            max_dedupe: MAX_DEDUPE_SIZE,
            offence_hard_cap: OFFENCE_HARD_CAP,
            offence_scale: OFFENCE_SCALE,
        }
    }
}

} // verus!
