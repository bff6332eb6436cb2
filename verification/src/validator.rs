//! The validator: per-peer state, dedupe cache and the pipeline over them.

use crate::clock::Clock;
use crate::codec::{decode, WireMessage};
use crate::dedupe::DedupeCache;
use crate::digest::dedupe_key;
use crate::model::{blame_target, ValidatorView};
use crate::peers::{quarantined_count, PeerId, PeerRegistry, PeerState};
use crate::scoring::{
    DECODE_PENALTY,
    EMPTY_PAYLOAD_PENALTY,
    MALICIOUS_PENALTY,
    OVERSIZE_PENALTY,
    RATE_LIMIT_PENALTY,
};
use vstd::prelude::*;

pub use crate::config::ValidatorConfig;
pub use crate::decision::{Acceptance, Decision, Reason};

verus! {

/// The identity behind an optional reference to a peer.
pub open spec fn author_view(author: Option<&PeerId>) -> Option<Seq<u8>> {
    match author {
        Some(a) => Some(a@),
        None => None,
    }
}

/// Validates messages and keeps score of the peers that send them.
///
/// One validator belongs to one node. It owns all per-peer state; the
/// transport sees verdicts and scores as values.
pub struct Validator {
    cfg: ValidatorConfig,
    peers: PeerRegistry,
    dedupe: DedupeCache,
    clock: Clock,
}

impl View for Validator {
    type V = ValidatorView;

    closed spec fn view(&self) -> ValidatorView {
        ValidatorView { cfg: self.cfg, peers: self.peers@, dedupe: self.dedupe@ }
    }
}

impl Validator {
    /// The validator's value is well formed, and its registry and cache
    /// are the ones that its configuration asks for.
    pub closed spec fn wf(&self) -> bool {
        &&& self@.wf()
        &&& self.peers.wf()
        &&& self.peers.max_peers() == self.cfg.max_peers
        &&& self.peers.fresh() == PeerState::fresh(self.cfg)
        &&& self.dedupe.wf()
        &&& self.dedupe.capacity() == self.cfg.max_dedupe
    }

    /// A well-formed validator has a well-formed value: the registry and
    /// the cache are within their capacities.
    pub proof fn lemma_wf(&self)
        requires
            self.wf(),
        ensures
            self@.wf(),
            self@.peers.len() <= self@.cfg.max_peers,
            self@.dedupe.len() <= self@.cfg.max_dedupe,
    {
    }

    /// A validator that has seen nothing.
    pub fn new(cfg: ValidatorConfig) -> (validator: Validator)
        ensures
            validator.wf(),
            validator@ == ValidatorView::initial(cfg),
    {
        let max_peers: usize = if cfg.max_peers == 0 {
            1
        } else {
            cfg.max_peers
        };
        let cfg = ValidatorConfig { max_peers, ..cfg };
        let fresh = PeerState::new(&cfg);
        Validator {
            cfg,
            peers: PeerRegistry::new(cfg.max_peers, fresh),
            dedupe: DedupeCache::new(cfg.max_dedupe),
            clock: Clock::new(),
        }
    }

    /// The configuration in force.
    pub fn config(&self) -> (cfg: ValidatorConfig)
        ensures
            cfg == self@.cfg,
    {
        self.cfg
    }

    /// Microseconds on the validator's clock.
    pub fn now_micros(&self) -> u64 {
        self.clock.now_micros()
    }

    /// Validates a message at the present time. `propagation_source` is
    /// the peer that handed the message over, `author` the peer that
    /// published it, if the overlay says.
    ///
    /// The verdict is that of [`Validator::validate_at`] for the reading
    /// of the clock.
    pub fn validate(
        &mut self,
        propagation_source: &PeerId,
        author: Option<&PeerId>,
        bytes: &[u8],
    ) -> (decision: Decision)
        requires
            old(self).wf(),
        ensures
            final(self).wf(),
            exists|now: u64|
                (final(self)@, decision) == #[trigger] old(self)@.step(
                    now,
                    propagation_source@,
                    author_view(author),
                    bytes@,
                ),
    {
        let now = self.clock.now_micros();
        self.validate_at(now, propagation_source, author, bytes)
    }

    /// Validates a message that arrives at `now`, in microseconds on a
    /// clock that does not run backwards.
    pub fn validate_at(
        &mut self,
        now: u64,
        propagation_source: &PeerId,
        author: Option<&PeerId>,
        bytes: &[u8],
    ) -> (decision: Decision)
        requires
            old(self).wf(),
        ensures
            final(self).wf(),
            (final(self)@, decision) == old(self)@.step(
                now,
                propagation_source@,
                author_view(author),
                bytes@,
            ),
    {
        let target: &PeerId = match author {
            Some(a) => a,
            None => propagation_source,
        };
        assert(target@ == blame_target(propagation_source@, author_view(author)));
        if self.is_quarantined(propagation_source) {
            return Decision {
                acceptance: Acceptance::Ignore,
                reason: Reason::ForwarderQuarantined,
                score_delta: 0,
            };
        }
        if bytes.len() > self.cfg.max_message_bytes {
            self.record_offence_and_update(target, OVERSIZE_PENALTY);
            return Decision {
                acceptance: Acceptance::Reject,
                reason: Reason::Oversize,
                score_delta: OVERSIZE_PENALTY,
            };
        }
        if !self.take_token(now, propagation_source) {
            self.record_offence_and_update(propagation_source, RATE_LIMIT_PENALTY);
            return Decision {
                acceptance: Acceptance::Reject,
                reason: Reason::RateLimited,
                score_delta: RATE_LIMIT_PENALTY,
            };
        }
        match decode(bytes) {
            Err(_) => {
                self.record_offence_and_update(target, DECODE_PENALTY);
                Decision {
                    acceptance: Acceptance::Reject,
                    reason: Reason::DecodeError,
                    score_delta: DECODE_PENALTY,
                }
            },
            Ok(msg) => {
                let key = dedupe_key(bytes);
                self.validate_content(target, &msg, key)
            },
        }
    }

    /// The part of the pipeline that follows decoding and hashing: dedupe,
    /// payload, replay and the malicious flag. `target` is the author, or
    /// the forwarder in its place; `key` is the content hash of the bytes
    /// that `msg` was decoded from.
    pub fn validate_content(&mut self, target: &PeerId, msg: &WireMessage, key: [u8; 32]) -> (decision:
        Decision)
        requires
            old(self).wf(),
        ensures
            final(self).wf(),
            (final(self)@, decision) == old(self)@.content_step(target@, msg@, key@),
    {
        proof {
            self@.lemma_content_step(target@, msg@, key@);
        }
        if self.is_dupe(&key) {
            return Decision {
                acceptance: Acceptance::Ignore,
                reason: Reason::Duplicate,
                score_delta: 0,
            };
        }
        self.add_to_dedupe(key);
        match msg {
            WireMessage::Good { seq, payload } => {
                if payload.len() == 0 {
                    self.record_offence_and_update(target, EMPTY_PAYLOAD_PENALTY);
                    return Decision {
                        acceptance: Acceptance::Reject,
                        reason: Reason::EmptyPayload,
                        score_delta: EMPTY_PAYLOAD_PENALTY,
                    };
                }
                let last: u64 = match self.get_peer_last_seq(target) {
                    Some(last) => last,
                    None => 0,
                };
                if *seq <= last {
                    return Decision {
                        acceptance: Acceptance::Ignore,
                        reason: Reason::ReplayOrOldSeq,
                        score_delta: 0,
                    };
                }
                self.update_peer_last_seq(target, *seq);
                Decision { acceptance: Acceptance::Accept, reason: Reason::Passed, score_delta: 0 }
            },
            WireMessage::Bad => {
                self.record_offence_and_update(target, MALICIOUS_PENALTY);
                Decision {
                    acceptance: Acceptance::Reject,
                    reason: Reason::MaliciousPayload,
                    score_delta: MALICIOUS_PENALTY,
                }
            },
        }
    }

    /// The score of a peer, in thousandths of a point; zero if the peer is
    /// not in the registry.
    pub fn get_peer_score(&self, peer: &PeerId) -> (score: i64)
        requires
            self.wf(),
        ensures
            score == self@.peer_score(peer@),
    {
        match self.peers.get(peer) {
            Some(state) => state.score,
            None => 0,
        }
    }

    /// The score of a peer as the overlay is to see it: none until a
    /// penalty was recorded against the peer.
    pub fn get_app_score_option(&self, peer: &PeerId) -> (score: Option<i64>)
        requires
            self.wf(),
        ensures
            score == self@.app_score(peer@),
    {
        match self.peers.get(peer) {
            Some(state) => if state.offences > 0 {
                Some(state.score)
            } else {
                None
            },
            None => None,
        }
    }

    /// Whether a peer is in the registry and quarantined.
    pub fn is_quarantined(&self, peer: &PeerId) -> (quarantined: bool)
        requires
            self.wf(),
        ensures
            quarantined == self@.is_quarantined(peer@),
    {
        match self.peers.get(peer) {
            Some(state) => state.quarantined,
            None => false,
        }
    }

    /// How many peers in the registry are quarantined.
    pub fn get_quarantined_count(&self) -> (count: usize)
        ensures
            count == quarantined_count(self@.peers),
    {
        self.peers.quarantined()
    }

    /// Every peer in the registry with its score and its quarantine flag,
    /// oldest admission first.
    pub fn dump_peer_states(&self) -> (all: Vec<(PeerId, i64, bool)>)
        ensures
            all@.len() == self@.peers.len(),
            forall|i: int|
                0 <= i < all@.len() ==> {
                    &&& (#[trigger] all@[i]).0@ == self@.peers[i].id
                    &&& all@[i].1 == self@.peers[i].state.score
                    &&& all@[i].2 == self@.peers[i].state.quarantined
                },
    {
        let snapshot = self.peers.snapshot();
        let n = snapshot.len();
        let mut all: Vec<(PeerId, i64, bool)> = Vec::with_capacity(n);
        let mut i: usize = 0;
        while i < n
            invariant
                n == snapshot@.len(),
                n == self@.peers.len(),
                i <= n,
                all@.len() == i,
                forall|k: int|
                    0 <= k < n ==> (#[trigger] snapshot@[k]).0@ == self@.peers[k].id
                        && snapshot@[k].1 == self@.peers[k].state,
                forall|k: int|
                    0 <= k < i ==> {
                        &&& (#[trigger] all@[k]).0@ == self@.peers[k].id
                        &&& all@[k].1 == self@.peers[k].state.score
                        &&& all@[k].2 == self@.peers[k].state.quarantined
                    },
            decreases n - i,
        {
            let state = snapshot[i].1;
            all.push((snapshot[i].0.clone(), state.score, state.quarantined));
            i += 1;
        }
        all
    }

    /// Records an offence against `peer`: counts it, scales `base_delta`
    /// by the number of offences so far, adds the result to the peer's
    /// score and quarantines the peer if it is now beyond tolerance. A
    /// quarantined peer stays quarantined, whatever `base_delta` is.
    /// Returns the scaled change of score.
    pub fn record_offence_and_update(&mut self, peer: &PeerId, base_delta: i64) -> (delta: i64)
        requires
            old(self).wf(),
        ensures
            final(self).wf(),
            final(self)@ == old(self)@.penalised(peer@, base_delta),
            delta == old(self)@.penalty(peer@, base_delta),
    {
        proof {
            self@.lemma_penalised(peer@, base_delta);
        }
        let index = self.ensure_peer_exists(peer);
        let mut state = self.peers.state_at(index);
        let delta = state.record_offence(base_delta, &self.cfg);
        self.peers.set_state(index, state);
        delta
    }

    /// The number of offences recorded against a peer.
    pub fn get_offence_count(&self, peer: &PeerId) -> (count: u32)
        requires
            self.wf(),
        ensures
            count == self@.offences(peer@),
    {
        match self.peers.get(peer) {
            Some(state) => state.offences,
            None => 0,
        }
    }

    /// The last sequence number accepted from a peer as an author.
    pub fn get_peer_last_seq(&self, peer: &PeerId) -> (last: Option<u64>)
        requires
            self.wf(),
        ensures
            last == self@.last_seq(peer@),
    {
        match self.peers.get(peer) {
            Some(state) => state.last_seq,
            None => None,
        }
    }

    /// Whether a content hash is in the dedupe cache.
    pub fn is_dupe(&self, hash: &[u8; 32]) -> (found: bool)
        requires
            self.wf(),
        ensures
            found == self@.dedupe.contains(hash@),
    {
        self.dedupe.contains(hash)
    }

    /// Notes `seq` as the last sequence number of `peer`, unless the
    /// peer's last number is as high or higher.
    fn update_peer_last_seq(&mut self, peer: &PeerId, seq: u64)
        requires
            old(self).wf(),
        ensures
            final(self).wf(),
            final(self)@ == old(self)@.with_last_seq(peer@, seq),
            final(self)@.last_seq(peer@) matches Some(next) && next >= seq && (old(
                self,
            )@.last_seq(peer@) matches Some(last) ==> next >= last),
    {
        proof {
            self@.lemma_with_last_seq(peer@, seq);
        }
        let index = self.ensure_peer_exists(peer);
        let mut state = self.peers.state_at(index);
        let news = match state.last_seq {
            Some(last) => seq > last,
            None => true,
        };
        if news {
            state.last_seq = Some(seq);
        }
        self.peers.set_state(index, state);
    }

    fn take_token(&mut self, now: u64, forwarder: &PeerId) -> (ok: bool)
        requires
            old(self).wf(),
        ensures
            final(self).wf(),
            final(self)@ == old(self)@.rate_checked(now, forwarder@),
            ok == old(self)@.has_token(now, forwarder@),
    {
        proof {
            self@.lemma_rate_checked(now, forwarder@);
            self@.lemma_known_wf(forwarder@);
        }
        let index = self.ensure_peer_exists(forwarder);
        let mut state = self.peers.state_at(index);
        let ok = state.bucket.try_consume(now, 1);
        self.peers.set_state(index, state);
        ok
    }

    fn ensure_peer_exists(&mut self, peer: &PeerId) -> (index: usize)
        requires
            old(self).wf(),
        ensures
            final(self).wf(),
            final(self)@ == old(self)@.ensured(peer@),
            index < final(self)@.peers.len(),
            final(self)@.peers[index as int].id == peer@,
            final(self)@.peers[index as int].state == old(self)@.known(peer@),
    {
        proof {
            self@.lemma_ensured(peer@);
        }
        let index = self.peers.ensure(peer);
        proof {
            crate::peers::lemma_position_some(self.peers@, peer@);
        }
        index
    }

    fn add_to_dedupe(&mut self, hash: [u8; 32])
        requires
            old(self).wf(),
        ensures
            final(self).wf(),
            final(self)@ == old(self)@.remembered(hash@),
    {
        proof {
            self@.lemma_remembered(hash@);
        }
        self.dedupe.insert(hash);
    }
}

} // verus!
