//! Verdicts of the validation pipeline.

use vstd::prelude::*;

verus! {

/// What the overlay is told to do with a message.
#[derive(Debug, Clone, Copy, PartialEq, Eq, Structural)]
pub enum Acceptance {
    /// Pass the message on to the mesh.
    Accept,
    /// Drop the message and hold it against the sender.
    Reject,
    /// Drop the message silently.
    Ignore,
}

/// Why a message got its verdict. The set is closed.
#[derive(Debug, Clone, Copy, PartialEq, Eq, Structural)]
pub enum Reason {
    /// The forwarder is quarantined.
    ForwarderQuarantined,
    /// The message is longer than the size gate allows.
    Oversize,
    /// The forwarder's token bucket is empty.
    RateLimited,
    /// The bytes are no message.
    DecodeError,
    /// A `Good` message without payload.
    EmptyPayload,
    /// The content hash is in the dedupe cache.
    Duplicate,
    /// The sequence number is not above the author's last one.
    ReplayOrOldSeq,
    /// A `Bad` message.
    MaliciousPayload,
    /// Nothing stands against the message.
    Passed,
}

impl Reason {
    /// The stable code of the reason.
    pub open spec fn code(self) -> Seq<char> {
        match self {
            Reason::ForwarderQuarantined => "forwarder_quarantined"@,
            Reason::Oversize => "oversize"@,
            Reason::RateLimited => "rate_limited"@,
            Reason::DecodeError => "decode_error"@,
            Reason::EmptyPayload => "empty_payload"@,
            Reason::Duplicate => "duplicate"@,
            Reason::ReplayOrOldSeq => "replay_or_old_seq"@,
            Reason::MaliciousPayload => "malicious_payload"@,
            Reason::Passed => "ok"@,
        }
    }

    /// The stable code of the reason, for metrics and logs.
    pub fn as_str(&self) -> (code: &'static str)
        ensures
            code@ == self.code(),
    {
        match self {
            Reason::ForwarderQuarantined => "forwarder_quarantined",
            Reason::Oversize => "oversize",
            Reason::RateLimited => "rate_limited",
            Reason::DecodeError => "decode_error",
            Reason::EmptyPayload => "empty_payload",
            Reason::Duplicate => "duplicate",
            Reason::ReplayOrOldSeq => "replay_or_old_seq",
            Reason::MaliciousPayload => "malicious_payload",
            Reason::Passed => "ok",
        }
    }
}

/// The outcome of validating one message.
#[derive(Debug, Clone, Copy, PartialEq, Eq, Structural)]
pub struct Decision {
    /// What the overlay is told.
    pub acceptance: Acceptance,
    /// Why.
    pub reason: Reason,
    /// Base penalty of the rule that fired, in thousandths of a point;
    /// zero where the rule carries none.
    pub score_delta: i64,
}

impl Decision {
    /// The message passes.
    pub open spec fn accepted() -> Decision {
        Decision { acceptance: Acceptance::Accept, reason: Reason::Passed, score_delta: 0 }
    }

    /// The message is dropped without penalty.
    pub open spec fn ignored(reason: Reason) -> Decision {
        Decision { acceptance: Acceptance::Ignore, reason, score_delta: 0 }
    }

    /// The message is dropped and `base` is held against the blamed peer.
    pub open spec fn rejected(reason: Reason, base: i64) -> Decision {
        Decision { acceptance: Acceptance::Reject, reason, score_delta: base }
    }
}

} // verus!
