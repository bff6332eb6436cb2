//! The validation pipeline as a function from state and message to next
//! state and verdict.
//!
//! The rules are tried in a fixed order and the first that fires decides:
//!
//! 1. the forwarder is quarantined: ignore;
//! 2. the message is over the size gate: reject, blame the author;
//! 3. the forwarder's bucket has no token: reject, blame the forwarder;
//! 4. the bytes are no message: reject, blame the author;
//! 5. the content hash is in the dedupe cache: ignore;
//! 6. a `Good` message has no payload: reject, blame the author;
//! 7. the sequence number is not above the author's last one: ignore;
//! 8. the message is `Bad`: reject, blame the author;
//! 9. otherwise: accept.
//!
//! Where the overlay names no author, the forwarder stands in for it.

use crate::codec::{spec_decode, MessageView};
use crate::config::ValidatorConfig;
use crate::decision::{Decision, Reason};
use crate::dedupe::{inserted, lemma_inserted};
use crate::digest::content_hash;
use crate::peers::{
    admitted,
    distinct_ids,
    lemma_admitted,
    lemma_position_some,
    lemma_with_state,
    position,
    state_of,
    with_state,
    PeerRecord,
    PeerState,
};
use crate::scoring::{
    DECODE_PENALTY,
    EMPTY_PAYLOAD_PENALTY,
    MALICIOUS_PENALTY,
    OVERSIZE_PENALTY,
    RATE_LIMIT_PENALTY,
};
use vstd::prelude::*;

verus! {

/// Mathematical value of a validator.
pub struct ValidatorView {
    /// The configuration in force.
    pub cfg: ValidatorConfig,
    /// The peer registry, oldest admission first.
    pub peers: Seq<PeerRecord>,
    /// The dedupe cache, oldest hash first.
    pub dedupe: Seq<Seq<u8>>,
}

/// The peer that pays for what the author did.
pub open spec fn blame_target(forwarder: Seq<u8>, author: Option<Seq<u8>>) -> Seq<u8> {
    match author {
        Some(a) => a,
        None => forwarder,
    }
}

/// The peer that a verdict is held against: the forwarder where the
/// forwarder's rate was the reason, else the author, or the forwarder in
/// its place.
pub open spec fn blamed_peer(forwarder: Seq<u8>, author: Option<Seq<u8>>, reason: Reason) -> Seq<
    u8,
> {
    if reason == Reason::RateLimited {
        forwarder
    } else {
        blame_target(forwarder, author)
    }
}

impl ValidatorView {
    /// A validator that has seen nothing.
    pub open spec fn initial(cfg: ValidatorConfig) -> ValidatorView {
        ValidatorView { cfg: cfg.normalized(), peers: Seq::empty(), dedupe: Seq::empty() }
    }

    /// Both collections are within their capacities, no peer has two
    /// records, no hash is cached twice, and every peer state is well
    /// formed.
    pub open spec fn wf(self) -> bool {
        &&& self.cfg.max_peers >= 1
        &&& distinct_ids(self.peers)
        &&& self.peers.len() <= self.cfg.max_peers
        &&& self.dedupe.len() <= self.cfg.max_dedupe
        &&& self.dedupe.no_duplicates()
        &&& forall|i: int|
            0 <= i < self.peers.len() ==> (#[trigger] self.peers[i]).state.wf(self.cfg)
    }

    /// The state of a peer, if it is in the registry.
    pub open spec fn peer(self, id: Seq<u8>) -> Option<PeerState> {
        state_of(self.peers, id)
    }

    /// The state of a peer; that of a newcomer if it is not in the registry.
    pub open spec fn known(self, id: Seq<u8>) -> PeerState {
        match self.peer(id) {
            Some(state) => state,
            None => PeerState::fresh(self.cfg),
        }
    }

    /// Whether a peer is in the registry and quarantined.
    pub open spec fn is_quarantined(self, id: Seq<u8>) -> bool {
        match self.peer(id) {
            Some(state) => state.quarantined,
            None => false,
        }
    }

    /// The score of a peer; zero if it is not in the registry.
    pub open spec fn peer_score(self, id: Seq<u8>) -> i64 {
        match self.peer(id) {
            Some(state) => state.score,
            None => 0,
        }
    }

    /// The score of a peer as the overlay sees it: none until a penalty
    /// was recorded against the peer.
    pub open spec fn app_score(self, id: Seq<u8>) -> Option<i64> {
        match self.peer(id) {
            Some(state) => state.app_score(),
            None => None,
        }
    }

    /// The last sequence number accepted from a peer as an author.
    pub open spec fn last_seq(self, id: Seq<u8>) -> Option<u64> {
        match self.peer(id) {
            Some(state) => state.last_seq,
            None => None,
        }
    }

    /// The number of offences recorded against a peer.
    pub open spec fn offences(self, id: Seq<u8>) -> u32 {
        match self.peer(id) {
            Some(state) => state.offences,
            None => 0,
        }
    }

    /// The validator after `id` was looked up or admitted to the registry.
    pub open spec fn ensured(self, id: Seq<u8>) -> ValidatorView {
        ValidatorView {
            peers: admitted(self.peers, id, self.cfg.max_peers, PeerState::fresh(self.cfg)),
            ..self
        }
    }

    /// The validator with the state of `id` replaced.
    pub open spec fn with_peer(self, id: Seq<u8>, state: PeerState) -> ValidatorView {
        ValidatorView { peers: with_state(self.peers, id, state), ..self }
    }

    /// The validator after an offence with base penalty `base` was
    /// recorded against `id`.
    pub open spec fn penalised(self, id: Seq<u8>, base: i64) -> ValidatorView {
        self.ensured(id).with_peer(id, self.known(id).after_offence(base, self.cfg))
    }

    /// The change of score that an offence with base penalty `base` brings
    /// `id` now.
    pub open spec fn penalty(self, id: Seq<u8>, base: i64) -> i64 {
        self.known(id).next_delta(base, self.cfg)
    }

    /// The validator after `seq` was noted as the last sequence number of
    /// author `id`.
    pub open spec fn with_last_seq(self, id: Seq<u8>, seq: u64) -> ValidatorView {
        self.ensured(id).with_peer(id, self.noted(id, seq))
    }

    /// The state of `id` after `seq` was noted: `seq` is the last
    /// sequence number if there was none or a lower one; a last number
    /// that is as high or higher stays.
    pub open spec fn noted(self, id: Seq<u8>, seq: u64) -> PeerState {
        let state = self.known(id);
        if state.last_seq matches Some(last) && seq <= last {
            state
        } else {
            PeerState { last_seq: Some(seq), ..state }
        }
    }

    /// Whether the bucket of `forwarder` holds a token at `now`.
    pub open spec fn has_token(self, now: u64, forwarder: Seq<u8>) -> bool {
        self.known(forwarder).bucket.can_consume(now, 1)
    }

    /// The validator after `forwarder` was asked for a token at `now`.
    pub open spec fn rate_checked(self, now: u64, forwarder: Seq<u8>) -> ValidatorView {
        let state = self.known(forwarder);
        self.ensured(forwarder).with_peer(
            forwarder,
            PeerState { bucket: state.bucket.after_consume(now, 1), ..state },
        )
    }

    /// The validator after `key` went into the dedupe cache.
    pub open spec fn remembered(self, key: Seq<u8>) -> ValidatorView {
        ValidatorView { dedupe: inserted(self.dedupe, key, self.cfg.max_dedupe), ..self }
    }

    /// Whether `seq` is no news from author `id`. An author without a
    /// last sequence number counts as having sent number zero.
    pub open spec fn is_replay(self, id: Seq<u8>, seq: u64) -> bool {
        match self.last_seq(id) {
            Some(last) => seq <= last,
            None => seq == 0,
        }
    }

    /// Rules 5 to 9: what becomes of a decoded message with content hash
    /// `key`, blamed on `target`.
    pub open spec fn content_step(self, target: Seq<u8>, msg: MessageView, key: Seq<u8>) -> (
        ValidatorView,
        Decision,
    ) {
        if self.dedupe.contains(key) {
            (self, Decision::ignored(Reason::Duplicate))
        } else {
            let seen = self.remembered(key);
            match msg {
                MessageView::Good { seq, payload } => {
                    if payload.len() == 0 {
                        (
                            seen.penalised(target, EMPTY_PAYLOAD_PENALTY),
                            Decision::rejected(Reason::EmptyPayload, EMPTY_PAYLOAD_PENALTY),
                        )
                    } else if seen.is_replay(target, seq) {
                        (seen, Decision::ignored(Reason::ReplayOrOldSeq))
                    } else {
                        (seen.with_last_seq(target, seq), Decision::accepted())
                    }
                },
                MessageView::Bad => (
                    seen.penalised(target, MALICIOUS_PENALTY),
                    Decision::rejected(Reason::MaliciousPayload, MALICIOUS_PENALTY),
                ),
            }
        }
    }

    /// The whole pipeline: what becomes of `bytes` that `forwarder` handed
    /// over at `now`, written by `author`, when their content hash is `key`.
    pub open spec fn step_with_key(
        self,
        now: u64,
        forwarder: Seq<u8>,
        author: Option<Seq<u8>>,
        bytes: Seq<u8>,
        key: Seq<u8>,
    ) -> (ValidatorView, Decision) {
        let target = blame_target(forwarder, author);
        if self.is_quarantined(forwarder) {
            (self, Decision::ignored(Reason::ForwarderQuarantined))
        } else if bytes.len() > self.cfg.max_message_bytes {
            (
                self.penalised(target, OVERSIZE_PENALTY),
                Decision::rejected(Reason::Oversize, OVERSIZE_PENALTY),
            )
        } else if !self.has_token(now, forwarder) {
            (
                self.rate_checked(now, forwarder).penalised(forwarder, RATE_LIMIT_PENALTY),
                Decision::rejected(Reason::RateLimited, RATE_LIMIT_PENALTY),
            )
        } else {
            match spec_decode(bytes) {
                Err(_) => (
                    self.rate_checked(now, forwarder).penalised(target, DECODE_PENALTY),
                    Decision::rejected(Reason::DecodeError, DECODE_PENALTY),
                ),
                Ok(msg) => self.rate_checked(now, forwarder).content_step(target, msg, key),
            }
        }
    }

    /// The whole pipeline, with the content hash that belongs to `bytes`.
    pub open spec fn step(
        self,
        now: u64,
        forwarder: Seq<u8>,
        author: Option<Seq<u8>>,
        bytes: Seq<u8>,
    ) -> (ValidatorView, Decision) {
        self.step_with_key(now, forwarder, author, bytes, content_hash(bytes))
    }

    /// Looking a peer up keeps the validator well formed, leaves the peer
    /// with the state it is known by, and changes no other peer that stays.
    pub proof fn lemma_ensured(self, id: Seq<u8>)
        requires
            self.wf(),
        ensures
            self.ensured(id).wf(),
            self.ensured(id).cfg == self.cfg,
            self.ensured(id).dedupe == self.dedupe,
            self.ensured(id).peer(id) == Some(self.known(id)),
            self.ensured(id).known(id) == self.known(id),
            self.peer(id) is Some ==> self.ensured(id) == self,
            forall|other: Seq<u8>|
                other != id && self.ensured(id).peer(other) is Some ==> self.ensured(id).peer(
                    other,
                ) == self.peer(other),
    {
        let fresh = PeerState::fresh(self.cfg);
        let after = self.ensured(id).peers;
        lemma_admitted(self.peers, id, self.cfg.max_peers, fresh);
        lemma_fresh_wf(self.cfg);
        if position(self.peers, id) is None {
            let shift: int = if self.peers.len() > 0 && self.peers.len() >= self.cfg.max_peers {
                1
            } else {
                0
            };
            assert forall|i: int| 0 <= i < after.len() implies (#[trigger] after[i]).state.wf(
                self.cfg,
            ) by {
                if i < after.len() - 1 {
                    assert(after[i] == self.peers[i + shift]);
                }
            }
        }
    }

    /// Replacing the state of a peer by a well-formed one keeps the
    /// validator well formed and touches no other peer.
    pub proof fn lemma_with_peer(self, id: Seq<u8>, state: PeerState)
        requires
            self.wf(),
            state.wf(self.cfg),
        ensures
            self.with_peer(id, state).wf(),
            self.with_peer(id, state).cfg == self.cfg,
            self.with_peer(id, state).dedupe == self.dedupe,
            self.with_peer(id, state).peers.len() == self.peers.len(),
            self.peer(id) is Some ==> self.with_peer(id, state).peer(id) == Some(state),
            self.peer(id) is Some ==> self.with_peer(id, state).known(id) == state,
            forall|other: Seq<u8>|
                other != id ==> #[trigger] self.with_peer(id, state).peer(other) == self.peer(
                    other,
                ),
            forall|other: Seq<u8>|
                (#[trigger] self.with_peer(id, state).peer(other) is Some) == (self.peer(
                    other,
                ) is Some),
    {
        lemma_with_state(self.peers, id, state);
        let after = self.with_peer(id, state).peers;
        assert forall|i: int| 0 <= i < after.len() implies (#[trigger] after[i]).state.wf(
            self.cfg,
        ) by {
            if position(self.peers, id) is Some {
                let p = position(self.peers, id).unwrap();
                if i != p {
                    assert(after[i] == self.peers[i]);
                }
            }
        }
        assert forall|other: Seq<u8>|
            (#[trigger] self.with_peer(id, state).peer(other) is Some) == (self.peer(
                other,
            ) is Some) by {
            assert(position(with_state(self.peers, id, state), other) == position(
                self.peers,
                other,
            ));
        }
    }

    /// The state by which a peer is known is well formed.
    pub proof fn lemma_known_wf(self, id: Seq<u8>)
        requires
            self.wf(),
        ensures
            self.known(id).wf(self.cfg),
    {
        lemma_fresh_wf(self.cfg);
        if position(self.peers, id) is Some {
            lemma_position_some(self.peers, id);
        }
    }

    /// A penalty keeps the validator well formed, leaves the blamed peer
    /// with the state after the offence, and changes no other peer that
    /// stays.
    pub proof fn lemma_penalised(self, id: Seq<u8>, base: i64)
        requires
            self.wf(),
        ensures
            self.penalised(id, base).wf(),
            self.penalised(id, base).cfg == self.cfg,
            self.penalised(id, base).dedupe == self.dedupe,
            self.penalised(id, base).peer(id) == Some(
                self.known(id).after_offence(base, self.cfg),
            ),
            forall|other: Seq<u8>|
                other != id && self.penalised(id, base).peer(other) is Some
                    ==> self.penalised(id, base).peer(other) == self.peer(other),
    {
        let state = self.known(id).after_offence(base, self.cfg);
        self.lemma_known_wf(id);
        lemma_after_offence_wf(self.known(id), base, self.cfg);
        self.lemma_ensured(id);
        self.ensured(id).lemma_with_peer(id, state);
    }

    /// Noting a sequence number keeps the validator well formed, changes
    /// nothing of the peer but its last number, and never lowers that.
    pub proof fn lemma_with_last_seq(self, id: Seq<u8>, seq: u64)
        requires
            self.wf(),
        ensures
            self.with_last_seq(id, seq).wf(),
            self.with_last_seq(id, seq).cfg == self.cfg,
            self.with_last_seq(id, seq).dedupe == self.dedupe,
            self.with_last_seq(id, seq).peer(id) == Some(self.noted(id, seq)),
            !self.is_replay(id, seq) ==> self.noted(id, seq) == (PeerState {
                last_seq: Some(seq),
                ..self.known(id)
            }),
            self.noted(id, seq).last_seq matches Some(next) && next >= seq && (self.known(
                id,
            ).last_seq matches Some(last) ==> next >= last),
            self.noted(id, seq) == (PeerState {
                last_seq: self.noted(id, seq).last_seq,
                ..self.known(id)
            }),
            forall|other: Seq<u8>|
                other != id && self.with_last_seq(id, seq).peer(other) is Some
                    ==> self.with_last_seq(id, seq).peer(other) == self.peer(other),
    {
        let state = self.noted(id, seq);
        self.lemma_known_wf(id);
        self.lemma_ensured(id);
        self.ensured(id).lemma_with_peer(id, state);
    }

    /// Asking for a token keeps the validator well formed.
    pub proof fn lemma_rate_checked(self, now: u64, forwarder: Seq<u8>)
        requires
            self.wf(),
        ensures
            self.rate_checked(now, forwarder).wf(),
            self.rate_checked(now, forwarder).cfg == self.cfg,
            self.rate_checked(now, forwarder).dedupe == self.dedupe,
            self.rate_checked(now, forwarder).peer(forwarder) == Some(
                PeerState {
                    bucket: self.known(forwarder).bucket.after_consume(now, 1),
                    ..self.known(forwarder)
                },
            ),
            forall|other: Seq<u8>|
                other != forwarder && self.rate_checked(now, forwarder).peer(other) is Some
                    ==> self.rate_checked(now, forwarder).peer(other) == self.peer(other),
    {
        let known = self.known(forwarder);
        let state = PeerState { bucket: known.bucket.after_consume(now, 1), ..known };
        self.lemma_known_wf(forwarder);
        crate::bucket::law_level_stays_in_range(known.bucket, now, 1);
        self.lemma_ensured(forwarder);
        self.ensured(forwarder).lemma_with_peer(forwarder, state);
    }

    /// Remembering a hash keeps the validator well formed and touches no
    /// peer.
    pub proof fn lemma_remembered(self, key: Seq<u8>)
        requires
            self.wf(),
        ensures
            self.remembered(key).wf(),
            self.remembered(key).cfg == self.cfg,
            self.remembered(key).peers == self.peers,
            self.cfg.max_dedupe >= 1 ==> self.remembered(key).dedupe.contains(key),
            forall|other: Seq<u8>|
                self.remembered(key).dedupe.contains(other) ==> other == key
                    || self.dedupe.contains(other),
    {
        lemma_inserted(self.dedupe, key, self.cfg.max_dedupe);
    }

    /// Rules 5 to 9 keep the validator well formed.
    pub proof fn lemma_content_step(self, target: Seq<u8>, msg: MessageView, key: Seq<u8>)
        requires
            self.wf(),
        ensures
            self.content_step(target, msg, key).0.wf(),
            self.content_step(target, msg, key).0.cfg == self.cfg,
    {
        let seen = self.remembered(key);
        self.lemma_remembered(key);
        seen.lemma_penalised(target, EMPTY_PAYLOAD_PENALTY);
        seen.lemma_penalised(target, MALICIOUS_PENALTY);
        match msg {
            MessageView::Good { seq, payload } => {
                seen.lemma_with_last_seq(target, seq);
            },
            MessageView::Bad => {},
        }
    }

    /// The pipeline keeps the validator well formed, whatever the hash.
    pub proof fn lemma_step_with_key(
        self,
        now: u64,
        forwarder: Seq<u8>,
        author: Option<Seq<u8>>,
        bytes: Seq<u8>,
        key: Seq<u8>,
    )
        requires
            self.wf(),
        ensures
            self.step_with_key(now, forwarder, author, bytes, key).0.wf(),
            self.step_with_key(now, forwarder, author, bytes, key).0.cfg == self.cfg,
    {
        let target = blame_target(forwarder, author);
        let checked = self.rate_checked(now, forwarder);
        self.lemma_penalised(target, OVERSIZE_PENALTY);
        self.lemma_rate_checked(now, forwarder);
        checked.lemma_penalised(forwarder, RATE_LIMIT_PENALTY);
        checked.lemma_penalised(target, DECODE_PENALTY);
        match spec_decode(bytes) {
            Ok(msg) => {
                checked.lemma_content_step(target, msg, key);
            },
            Err(_) => {},
        }
    }
}

/// The state of a newcomer is well formed.
pub proof fn lemma_fresh_wf(cfg: ValidatorConfig)
    ensures
        PeerState::fresh(cfg).wf(cfg),
{
    assert(cfg.token_bucket_capacity * crate::bucket::MICROS <= 0xffff_ffff * 1_000_000)
        by (nonlinear_arith)
        requires
            cfg.token_bucket_capacity <= 0xffff_ffff,
            crate::bucket::MICROS == 1_000_000,
    ;
}

/// An offence leaves a well-formed state well formed.
pub proof fn lemma_after_offence_wf(state: PeerState, base: i64, cfg: ValidatorConfig)
    requires
        state.wf(cfg),
    ensures
        state.after_offence(base, cfg).wf(cfg),
        state.after_offence(base, cfg).offences >= 1,
        state.after_offence(base, cfg).offences >= state.offences,
        state.after_offence(base, cfg).bucket == state.bucket,
        state.after_offence(base, cfg).last_seq == state.last_seq,
{
}

} // verus!
