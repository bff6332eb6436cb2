//! What holds of the pipeline on every input.
//!
//! Each law is stated of [`ValidatorView::step`], which is what
//! [`crate::validator::Validator::validate_at`] computes.

use crate::codec::{spec_decode, DecodeError, MessageView};
use crate::decision::{Acceptance, Decision, Reason};
use crate::digest::content_hash;
use crate::model::{blame_target, blamed_peer, lemma_after_offence_wf, ValidatorView};
use crate::peers::{lemma_admitted_keeps, lemma_position_some, PeerState};
use crate::scoring::{
    law_delta_keeps_sign,
    DECODE_PENALTY,
    EMPTY_PAYLOAD_PENALTY,
    MALICIOUS_PENALTY,
    OVERSIZE_PENALTY,
    RATE_LIMIT_PENALTY,
};
use vstd::prelude::*;

verus! {

impl ValidatorView {
    /// Whether admitting `forwarder` to a full registry pushes out
    /// `other`, the peer admitted longest ago.
    pub open spec fn displaces(self, forwarder: Seq<u8>, other: Seq<u8>) -> bool {
        &&& forwarder != other
        &&& self.peer(forwarder) is None
        &&& self.peers.len() >= self.cfg.max_peers
        &&& self.peers.len() > 0
        &&& self.peers[0].id == other
    }

    /// Whether a message reaches the rate limiter: neither the quarantine
    /// gate nor the size gate stops it.
    pub open spec fn reaches_rate_limit(self, forwarder: Seq<u8>, bytes: Seq<u8>) -> bool {
        !self.is_quarantined(forwarder) && bytes.len() <= self.cfg.max_message_bytes
    }

    /// Whether a message reaches the decoder: it reaches the rate limiter
    /// and the forwarder has a token.
    pub open spec fn reaches_decoder(self, now: u64, forwarder: Seq<u8>, bytes: Seq<u8>) -> bool {
        self.reaches_rate_limit(forwarder, bytes) && self.has_token(now, forwarder)
    }

    /// Whether `other` loses its place in the registry to the forwarder of
    /// a message: the message reaches the rate limiter, and the forwarder
    /// is a newcomer to a full registry in which `other` is the oldest peer.
    pub open spec fn gives_way(self, forwarder: Seq<u8>, bytes: Seq<u8>, other: Seq<u8>) -> bool {
        self.reaches_rate_limit(forwarder, bytes) && self.displaces(forwarder, other)
    }

    /// Looking a peer up leaves every other peer in place, but for the
    /// oldest one when a newcomer needs its room.
    pub proof fn lemma_ensured_keeps(self, id: Seq<u8>, other: Seq<u8>)
        requires
            self.wf(),
            self.peer(other) is Some,
            !self.displaces(id, other),
        ensures
            self.ensured(id).peer(other) == self.peer(other),
    {
        if id == other {
            self.lemma_ensured(id);
        } else {
            lemma_position_some(self.peers, other);
            lemma_admitted_keeps(
                self.peers,
                id,
                self.cfg.max_peers,
                PeerState::fresh(self.cfg),
                other,
            );
        }
    }

    /// Asking the forwarder for a token leaves every other peer in place,
    /// but for the oldest one when the forwarder is a newcomer that needs
    /// its room.
    pub proof fn lemma_rate_checked_keeps(self, now: u64, forwarder: Seq<u8>, other: Seq<u8>)
        requires
            self.wf(),
            other != forwarder,
            self.peer(other) is Some,
            !self.displaces(forwarder, other),
        ensures
            self.rate_checked(now, forwarder).peer(other) == self.peer(other),
            self.rate_checked(now, forwarder).known(other) == self.known(other),
    {
        let known = self.known(forwarder);
        let state = PeerState { bucket: known.bucket.after_consume(now, 1), ..known };
        self.lemma_ensured_keeps(forwarder, other);
        self.lemma_known_wf(forwarder);
        crate::bucket::law_level_stays_in_range(known.bucket, now, 1);
        self.lemma_ensured(forwarder);
        self.ensured(forwarder).lemma_with_peer(forwarder, state);
    }
}

/// A message from a quarantined forwarder is ignored, whatever it holds,
/// and changes nothing.
pub proof fn law_quarantined_forwarder_is_ignored(
    v: ValidatorView,
    now: u64,
    forwarder: Seq<u8>,
    author: Option<Seq<u8>>,
    bytes: Seq<u8>,
)
    requires
        v.is_quarantined(forwarder),
    ensures
        v.step(now, forwarder, author, bytes) == (
            v,
            Decision::ignored(Reason::ForwarderQuarantined),
        ),
{
}

/// A message over the size gate is rejected as oversize, unless its
/// forwarder is quarantined. The author pays, and no token is taken.
pub proof fn law_oversize_is_rejected(
    v: ValidatorView,
    now: u64,
    forwarder: Seq<u8>,
    author: Option<Seq<u8>>,
    bytes: Seq<u8>,
)
    requires
        bytes.len() > v.cfg.max_message_bytes,
        !v.is_quarantined(forwarder),
    ensures
        v.step(now, forwarder, author, bytes).1 == Decision::rejected(
            Reason::Oversize,
            OVERSIZE_PENALTY,
        ),
        v.step(now, forwarder, author, bytes).0 == v.penalised(
            blame_target(forwarder, author),
            OVERSIZE_PENALTY,
        ),
{
}

/// A message that reaches the rate limiter is rejected as rate limited
/// if and only if the forwarder has no token. The forwarder pays.
pub proof fn law_rate_limit(
    v: ValidatorView,
    now: u64,
    forwarder: Seq<u8>,
    author: Option<Seq<u8>>,
    bytes: Seq<u8>,
)
    requires
        v.reaches_rate_limit(forwarder, bytes),
    ensures
        v.step(now, forwarder, author, bytes).1.reason == Reason::RateLimited <==> !v.has_token(
            now,
            forwarder,
        ),
        !v.has_token(now, forwarder) ==> v.step(now, forwarder, author, bytes) == (
            v.rate_checked(now, forwarder).penalised(forwarder, RATE_LIMIT_PENALTY),
            Decision::rejected(Reason::RateLimited, RATE_LIMIT_PENALTY),
        ),
{
    let target = blame_target(forwarder, author);
    let checked = v.rate_checked(now, forwarder);
    match spec_decode(bytes) {
        Ok(msg) => {
            let _ = checked.content_step(target, msg, content_hash(bytes));
        },
        Err(_) => {},
    }
}

/// Bytes that are no message are rejected with a decode error, if they
/// reach the decoder. The author pays.
pub proof fn law_undecodable_is_rejected(
    v: ValidatorView,
    now: u64,
    forwarder: Seq<u8>,
    author: Option<Seq<u8>>,
    bytes: Seq<u8>,
)
    requires
        spec_decode(bytes) is Err,
        v.reaches_decoder(now, forwarder, bytes),
    ensures
        v.step(now, forwarder, author, bytes) == (
            v.rate_checked(now, forwarder).penalised(
                blame_target(forwarder, author),
                DECODE_PENALTY,
            ),
            Decision::rejected(Reason::DecodeError, DECODE_PENALTY),
        ),
{
}

/// A `Good` message without payload is rejected for its empty payload, if
/// it reaches the decoder and is no duplicate. The author pays.
pub proof fn law_empty_payload_is_rejected(
    v: ValidatorView,
    now: u64,
    forwarder: Seq<u8>,
    author: Option<Seq<u8>>,
    bytes: Seq<u8>,
    seq: u64,
)
    requires
        spec_decode(bytes) == Ok::<MessageView, DecodeError>(
            MessageView::Good { seq, payload: Seq::empty() },
        ),
        v.reaches_decoder(now, forwarder, bytes),
        !v.dedupe.contains(content_hash(bytes)),
    ensures
        v.step(now, forwarder, author, bytes).1 == Decision::rejected(
            Reason::EmptyPayload,
            EMPTY_PAYLOAD_PENALTY,
        ),
{
}

/// A `Bad` message is rejected as malicious, if it reaches the decoder
/// and is no duplicate. The author pays.
pub proof fn law_malicious_is_rejected(
    v: ValidatorView,
    now: u64,
    forwarder: Seq<u8>,
    author: Option<Seq<u8>>,
    bytes: Seq<u8>,
)
    requires
        spec_decode(bytes) == Ok::<MessageView, DecodeError>(MessageView::Bad),
        v.reaches_decoder(now, forwarder, bytes),
        !v.dedupe.contains(content_hash(bytes)),
    ensures
        v.step(now, forwarder, author, bytes).1 == Decision::rejected(
            Reason::MaliciousPayload,
            MALICIOUS_PENALTY,
        ),
        v.step(now, forwarder, author, bytes).0 == v.rate_checked(now, forwarder).remembered(
            content_hash(bytes),
        ).penalised(blame_target(forwarder, author), MALICIOUS_PENALTY),
{
}

/// A message is accepted if and only if no rule stands against it; its
/// sequence number is then the author's last one.
pub proof fn law_accept(
    v: ValidatorView,
    now: u64,
    forwarder: Seq<u8>,
    author: Option<Seq<u8>>,
    bytes: Seq<u8>,
)
    requires
        v.wf(),
    ensures
        v.step(now, forwarder, author, bytes).1.acceptance == Acceptance::Accept <==> {
            &&& v.reaches_decoder(now, forwarder, bytes)
            &&& !v.dedupe.contains(content_hash(bytes))
            &&& spec_decode(bytes) matches Ok(MessageView::Good { seq, payload })
            &&& payload.len() > 0
            &&& !v.rate_checked(now, forwarder).is_replay(blame_target(forwarder, author), seq)
        },
        v.step(now, forwarder, author, bytes).1.acceptance == Acceptance::Accept ==> {
            &&& v.step(now, forwarder, author, bytes).1 == Decision::accepted()
            &&& spec_decode(bytes) matches Ok(MessageView::Good { seq, .. })
            &&& v.step(now, forwarder, author, bytes).0.last_seq(blame_target(forwarder, author))
                == Some(seq)
            &&& v.step(now, forwarder, author, bytes).0.dedupe == v.remembered(
                content_hash(bytes),
            ).dedupe
            &&& !v.step(now, forwarder, author, bytes).0.is_quarantined(forwarder)
        },
{
    let target = blame_target(forwarder, author);
    let key = content_hash(bytes);
    let checked = v.rate_checked(now, forwarder);
    v.lemma_rate_checked(now, forwarder);
    v.lemma_known_wf(forwarder);
    let seen = checked.remembered(key);
    checked.lemma_remembered(key);
    if v.step(now, forwarder, author, bytes).1.acceptance == Acceptance::Accept {
        match spec_decode(bytes) {
            Ok(MessageView::Good { seq, payload }) => {
                seen.lemma_with_last_seq(target, seq);
                let after = seen.with_last_seq(target, seq);
                assert(after == v.step(now, forwarder, author, bytes).0);
                if target != forwarder {
                    if after.peer(forwarder) is Some {
                        assert(after.peer(forwarder) == seen.peer(forwarder));
                    }
                }
            },
            _ => {},
        }
    }
}

/// A message whose sequence number is not above the last one accepted
/// from its author is ignored as a replay, if it reaches the decoder, is
/// no duplicate and has a payload. The one exception is an author that
/// loses its place in a full registry to the forwarder and comes back as
/// a newcomer, to whom every number but zero is news.
pub proof fn law_old_seq_is_replay(
    v: ValidatorView,
    now: u64,
    forwarder: Seq<u8>,
    author: Option<Seq<u8>>,
    bytes: Seq<u8>,
    last: u64,
)
    requires
        v.wf(),
        v.last_seq(blame_target(forwarder, author)) == Some(last),
        spec_decode(bytes) matches Ok(MessageView::Good { seq, payload }) && seq <= last
            && payload.len() > 0 && (seq == 0 || !v.displaces(
            forwarder,
            blame_target(forwarder, author),
        )),
        v.reaches_decoder(now, forwarder, bytes),
        !v.dedupe.contains(content_hash(bytes)),
    ensures
        v.step(now, forwarder, author, bytes).1 == Decision::ignored(Reason::ReplayOrOldSeq),
{
    let target = blame_target(forwarder, author);
    let key = content_hash(bytes);
    let checked = v.rate_checked(now, forwarder);
    v.lemma_rate_checked(now, forwarder);
    checked.lemma_remembered(key);
    if !v.displaces(forwarder, target) {
        if target != forwarder {
            v.lemma_rate_checked_keeps(now, forwarder, target);
        }
        assert(checked.remembered(key).last_seq(target) == Some(last));
    }
}

/// After a message from a peer was accepted, a message from the same
/// peer with a sequence number that is not higher is ignored as a replay,
/// if it is within the size gate, finds a token, is no duplicate and has
/// a payload.
pub proof fn law_replay_after_accept(
    v: ValidatorView,
    peer: Seq<u8>,
    now1: u64,
    bytes1: Seq<u8>,
    now2: u64,
    bytes2: Seq<u8>,
)
    requires
        v.wf(),
        v.step(now1, peer, Some(peer), bytes1).1.acceptance == Acceptance::Accept,
        spec_decode(bytes1) matches Ok(MessageView::Good { seq: seq1, .. }) && (spec_decode(
            bytes2,
        ) matches Ok(MessageView::Good { seq: seq2, payload: payload2 }) && seq2 <= seq1
            && payload2.len() > 0),
        bytes2.len() <= v.cfg.max_message_bytes,
        v.step(now1, peer, Some(peer), bytes1).0.has_token(now2, peer),
        !v.step(now1, peer, Some(peer), bytes1).0.dedupe.contains(content_hash(bytes2)),
    ensures
        v.step(now1, peer, Some(peer), bytes1).0.step(now2, peer, Some(peer), bytes2).1
            == Decision::ignored(Reason::ReplayOrOldSeq),
{
    let after = v.step(now1, peer, Some(peer), bytes1).0;
    law_accept(v, now1, peer, Some(peer), bytes1);
    v.lemma_step_with_key(now1, peer, Some(peer), bytes1, content_hash(bytes1));
    match spec_decode(bytes1) {
        Ok(MessageView::Good { seq, .. }) => {
            law_old_seq_is_replay(after, now2, peer, Some(peer), bytes2, seq);
        },
        _ => {},
    }
}

/// After a message was accepted, the same bytes are ignored as a
/// duplicate, from the same forwarder or from another that is not
/// quarantined, if the forwarder has a token and the dedupe cache holds
/// anything at all.
pub proof fn law_duplicate_after_accept(
    v: ValidatorView,
    now1: u64,
    forwarder1: Seq<u8>,
    author1: Option<Seq<u8>>,
    bytes: Seq<u8>,
    now2: u64,
    forwarder2: Seq<u8>,
    author2: Option<Seq<u8>>,
)
    requires
        v.wf(),
        v.cfg.max_dedupe >= 1,
        v.step(now1, forwarder1, author1, bytes).1.acceptance == Acceptance::Accept,
        forwarder2 == forwarder1 || !v.step(now1, forwarder1, author1, bytes).0.is_quarantined(
            forwarder2,
        ),
        v.step(now1, forwarder1, author1, bytes).0.has_token(now2, forwarder2),
    ensures
        v.step(now1, forwarder1, author1, bytes).0.step(now2, forwarder2, author2, bytes).1
            == Decision::ignored(Reason::Duplicate),
{
    let key = content_hash(bytes);
    let after = v.step(now1, forwarder1, author1, bytes).0;
    law_accept(v, now1, forwarder1, author1, bytes);
    v.lemma_step_with_key(now1, forwarder1, author1, bytes, key);
    v.lemma_remembered(key);
    after.lemma_rate_checked(now2, forwarder2);
}

/// The change that a step makes to a peer other than the forwarder and
/// the blamed peer: none, unless the peer leaves the registry.
pub proof fn law_bystanders_are_untouched(
    v: ValidatorView,
    now: u64,
    forwarder: Seq<u8>,
    author: Option<Seq<u8>>,
    bytes: Seq<u8>,
    id: Seq<u8>,
)
    requires
        v.wf(),
        id != forwarder,
        id != blame_target(forwarder, author),
        v.step(now, forwarder, author, bytes).0.peer(id) is Some,
    ensures
        v.step(now, forwarder, author, bytes).0.peer(id) == v.peer(id),
{
    let target = blame_target(forwarder, author);
    let key = content_hash(bytes);
    if v.is_quarantined(forwarder) {
    } else if bytes.len() > v.cfg.max_message_bytes {
        v.lemma_penalised(target, OVERSIZE_PENALTY);
    } else {
        let checked = v.rate_checked(now, forwarder);
        v.lemma_rate_checked(now, forwarder);
        if !v.has_token(now, forwarder) {
            checked.lemma_penalised(forwarder, RATE_LIMIT_PENALTY);
            let end = checked.penalised(forwarder, RATE_LIMIT_PENALTY);
            assert(end.peer(id) == checked.peer(id));
        } else {
            match spec_decode(bytes) {
                Err(_) => {
                    checked.lemma_penalised(target, DECODE_PENALTY);
                    let end = checked.penalised(target, DECODE_PENALTY);
                    assert(end.peer(id) == checked.peer(id));
                },
                Ok(msg) => {
                    if checked.dedupe.contains(key) {
                    } else {
                        let seen = checked.remembered(key);
                        checked.lemma_remembered(key);
                        assert(seen.peer(id) == checked.peer(id));
                        match msg {
                            MessageView::Good { seq, payload } => {
                                if payload.len() == 0 {
                                    seen.lemma_penalised(target, EMPTY_PAYLOAD_PENALTY);
                                    let end = seen.penalised(target, EMPTY_PAYLOAD_PENALTY);
                                    assert(end.peer(id) == seen.peer(id));
                                } else if seen.is_replay(target, seq) {
                                } else {
                                    seen.lemma_with_last_seq(target, seq);
                                    let end = seen.with_last_seq(target, seq);
                                    assert(end.peer(id) == seen.peer(id));
                                }
                            },
                            MessageView::Bad => {
                                seen.lemma_penalised(target, MALICIOUS_PENALTY);
                                let end = seen.penalised(target, MALICIOUS_PENALTY);
                                assert(end.peer(id) == seen.peer(id));
                            },
                        }
                    }
                },
            }
        }
    }
}

/// What a step does to the forwarder or to the blamed peer, if the peer
/// was in the registry before, is there afterwards, and did not lose its
/// place to the forwarder in between: the score does not rise, the
/// offence count and the last sequence number do not fall, and a
/// quarantined peer stays quarantined.
pub proof fn lemma_step_on_participant(
    v: ValidatorView,
    now: u64,
    forwarder: Seq<u8>,
    author: Option<Seq<u8>>,
    bytes: Seq<u8>,
    id: Seq<u8>,
)
    requires
        v.wf(),
        id == forwarder || id == blame_target(forwarder, author),
        v.peer(id) is Some,
        v.step(now, forwarder, author, bytes).0.peer(id) is Some,
        !v.gives_way(forwarder, bytes, id),
    ensures
        v.step(now, forwarder, author, bytes).0.peer(id).unwrap().score <= v.peer(
            id,
        ).unwrap().score,
        v.step(now, forwarder, author, bytes).0.peer(id).unwrap().offences >= v.peer(
            id,
        ).unwrap().offences,
        v.peer(id).unwrap().quarantined ==> v.step(now, forwarder, author, bytes).0.peer(
            id,
        ).unwrap().quarantined,
        v.peer(id).unwrap().last_seq matches Some(last) ==> (v.step(
            now,
            forwarder,
            author,
            bytes,
        ).0.peer(id).unwrap().last_seq matches Some(next) && next >= last),
{
    let target = blame_target(forwarder, author);
    let key = content_hash(bytes);
    let before = v.peer(id).unwrap();
    lemma_position_some(v.peers, id);
    assert(before.wf(v.cfg));
    lemma_penalty_worsens(before, OVERSIZE_PENALTY, v.cfg);
    v.lemma_penalised(target, OVERSIZE_PENALTY);
    if v.is_quarantined(forwarder) {
    } else if bytes.len() > v.cfg.max_message_bytes {
        if id != target {
            assert(v.penalised(target, OVERSIZE_PENALTY).peer(id) == v.peer(id));
        }
    } else {
        let checked = v.rate_checked(now, forwarder);
        v.lemma_rate_checked(now, forwarder);
        v.lemma_known_wf(forwarder);
        if id != forwarder {
            v.lemma_rate_checked_keeps(now, forwarder, id);
        }
        // The state of `id` after the token was asked for.
        let mid = checked.peer(id).unwrap();
        assert(mid.score == before.score && mid.offences == before.offences && mid.quarantined
            == before.quarantined && mid.last_seq == before.last_seq);
        lemma_position_some(checked.peers, id);
        assert(mid.wf(v.cfg));
        lemma_penalty_worsens(mid, RATE_LIMIT_PENALTY, v.cfg);
        lemma_penalty_worsens(mid, DECODE_PENALTY, v.cfg);
        lemma_penalty_worsens(mid, EMPTY_PAYLOAD_PENALTY, v.cfg);
        lemma_penalty_worsens(mid, MALICIOUS_PENALTY, v.cfg);
        checked.lemma_penalised(forwarder, RATE_LIMIT_PENALTY);
        checked.lemma_penalised(target, DECODE_PENALTY);
        let seen = checked.remembered(key);
        checked.lemma_remembered(key);
        seen.lemma_penalised(target, EMPTY_PAYLOAD_PENALTY);
        seen.lemma_penalised(target, MALICIOUS_PENALTY);
        assert(seen.peer(id) == checked.peer(id));
        match spec_decode(bytes) {
            Ok(MessageView::Good { seq, payload }) => {
                seen.lemma_with_last_seq(target, seq);
            },
            _ => {},
        }
    }
}

/// A penalty lowers the score or leaves it, raises the offence count or
/// leaves it, and keeps a quarantined peer quarantined.
pub proof fn lemma_penalty_worsens(state: PeerState, base: i64, cfg: crate::config::ValidatorConfig)
    requires
        state.wf(cfg),
        base <= 0,
    ensures
        state.after_offence(base, cfg).score <= state.score,
        state.after_offence(base, cfg).offences >= state.offences,
        state.quarantined ==> state.after_offence(base, cfg).quarantined,
        state.after_offence(base, cfg).last_seq == state.last_seq,
{
    law_delta_keeps_sign(base, state.next_offence(), cfg.offence_scale);
    lemma_after_offence_wf(state, base, cfg);
}

/// The last sequence number on record for a peer never falls while the
/// peer keeps its place in the registry.
pub proof fn law_last_seq_never_falls(
    v: ValidatorView,
    now: u64,
    forwarder: Seq<u8>,
    author: Option<Seq<u8>>,
    bytes: Seq<u8>,
    id: Seq<u8>,
    last: u64,
)
    requires
        v.wf(),
        v.last_seq(id) == Some(last),
        v.step(now, forwarder, author, bytes).0.peer(id) is Some,
        !v.gives_way(forwarder, bytes, id),
    ensures
        v.step(now, forwarder, author, bytes).0.last_seq(id) matches Some(next) && next >= last,
{
    if id == forwarder || id == blame_target(forwarder, author) {
        lemma_step_on_participant(v, now, forwarder, author, bytes, id);
    } else {
        law_bystanders_are_untouched(v, now, forwarder, author, bytes, id);
    }
}

/// A quarantined peer stays quarantined while it keeps its place in the
/// registry.
pub proof fn law_quarantine_is_sticky(
    v: ValidatorView,
    now: u64,
    forwarder: Seq<u8>,
    author: Option<Seq<u8>>,
    bytes: Seq<u8>,
    id: Seq<u8>,
)
    requires
        v.wf(),
        v.is_quarantined(id),
        v.step(now, forwarder, author, bytes).0.peer(id) is Some,
        !v.gives_way(forwarder, bytes, id),
    ensures
        v.step(now, forwarder, author, bytes).0.is_quarantined(id),
{
    if id == forwarder || id == blame_target(forwarder, author) {
        lemma_step_on_participant(v, now, forwarder, author, bytes, id);
    } else {
        law_bystanders_are_untouched(v, now, forwarder, author, bytes, id);
    }
}

/// A step keeps the registry and the dedupe cache within their
/// capacities, and every peer state well formed.
pub proof fn law_step_keeps_bounds(
    v: ValidatorView,
    now: u64,
    forwarder: Seq<u8>,
    author: Option<Seq<u8>>,
    bytes: Seq<u8>,
)
    requires
        v.wf(),
    ensures
        v.step(now, forwarder, author, bytes).0.wf(),
        v.step(now, forwarder, author, bytes).0.cfg == v.cfg,
        v.step(now, forwarder, author, bytes).0.peers.len() <= v.cfg.max_peers,
        v.step(now, forwarder, author, bytes).0.dedupe.len() <= v.cfg.max_dedupe,
{
    v.lemma_step_with_key(now, forwarder, author, bytes, content_hash(bytes));
}

/// A validator that has seen nothing is within its bounds, and its
/// quarantine flags are exact.
pub proof fn law_initial_is_well_formed(cfg: crate::config::ValidatorConfig)
    ensures
        ValidatorView::initial(cfg).wf(),
        ValidatorView::initial(cfg).flags_are_exact(),
{
}

/// An offence never clears the quarantine flag, whatever its base, and
/// sets it exactly when the peer is beyond tolerance afterwards.
pub proof fn law_offence_never_clears_quarantine(
    state: PeerState,
    base: i64,
    cfg: crate::config::ValidatorConfig,
)
    ensures
        state.quarantined ==> state.after_offence(base, cfg).quarantined,
        state.after_offence(base, cfg).quarantined <==> state.quarantined
            || PeerState::beyond_tolerance(
            state.after_offence(base, cfg).score,
            state.after_offence(base, cfg).offences,
            cfg,
        ),
{
}

/// Recording an offence against a quarantined peer leaves it quarantined,
/// whatever the base, a reward included.
pub proof fn law_recorded_offence_keeps_quarantine(v: ValidatorView, id: Seq<u8>, base: i64)
    requires
        v.wf(),
        v.is_quarantined(id),
    ensures
        v.penalised(id, base).is_quarantined(id),
{
    v.lemma_penalised(id, base);
}

/// With a quarantine threshold below zero, a peer in the registry that is
/// beyond tolerance is quarantined.
pub proof fn law_quarantine_rule(v: ValidatorView, id: Seq<u8>)
    requires
        v.wf(),
        v.cfg.quarantine_threshold < 0,
        v.peer(id) is Some,
        PeerState::beyond_tolerance(v.peer_score(id), v.offences(id), v.cfg),
    ensures
        v.is_quarantined(id),
{
    lemma_position_some(v.peers, id);
}

/// A penalty that is no reward keeps the quarantine flag exact: if the
/// flag said no more than the rule before, it says no more after.
pub proof fn law_penalty_keeps_flag_exact(
    state: PeerState,
    base: i64,
    cfg: crate::config::ValidatorConfig,
)
    requires
        state.wf(cfg),
        state.flag_is_exact(cfg),
        base <= 0,
    ensures
        state.after_offence(base, cfg).flag_is_exact(cfg),
{
    lemma_penalty_worsens(state, base, cfg);
}

impl ValidatorView {
    /// No peer is quarantined that is not beyond tolerance now.
    pub open spec fn flags_are_exact(self) -> bool {
        forall|i: int|
            0 <= i < self.peers.len() ==> (#[trigger] self.peers[i]).state.flag_is_exact(self.cfg)
    }

    /// The state by which a peer is known has an exact flag.
    pub proof fn lemma_known_exact(self, id: Seq<u8>)
        requires
            self.flags_are_exact(),
        ensures
            self.known(id).flag_is_exact(self.cfg),
    {
        if crate::peers::position(self.peers, id) is Some {
            lemma_position_some(self.peers, id);
        }
    }

    /// Looking a peer up keeps the flags exact.
    pub proof fn lemma_ensured_exact(self, id: Seq<u8>)
        requires
            self.wf(),
            self.flags_are_exact(),
        ensures
            self.ensured(id).flags_are_exact(),
    {
        let after = self.ensured(id).peers;
        if crate::peers::position(self.peers, id) is None {
            let shift: int = if self.peers.len() > 0 && self.peers.len() >= self.cfg.max_peers {
                1
            } else {
                0
            };
            assert forall|i: int| 0 <= i < after.len() implies (
            #[trigger] after[i]).state.flag_is_exact(self.cfg) by {
                if i < after.len() - 1 {
                    assert(after[i] == self.peers[i + shift]);
                }
            }
        }
    }

    /// Replacing the state of a peer by one with an exact flag keeps the
    /// flags exact.
    pub proof fn lemma_with_peer_exact(self, id: Seq<u8>, state: PeerState)
        requires
            self.wf(),
            self.flags_are_exact(),
            state.flag_is_exact(self.cfg),
        ensures
            self.with_peer(id, state).flags_are_exact(),
    {
        let after = self.with_peer(id, state).peers;
        assert forall|i: int| 0 <= i < after.len() implies (#[trigger] after[i]).state.flag_is_exact(
            self.cfg,
        ) by {
            if crate::peers::position(self.peers, id) is Some {
                let p = crate::peers::position(self.peers, id).unwrap();
                if i != p {
                    assert(after[i] == self.peers[i]);
                }
            }
        }
    }

    /// A penalty that is no reward keeps the flags exact.
    pub proof fn lemma_penalised_exact(self, id: Seq<u8>, base: i64)
        requires
            self.wf(),
            self.flags_are_exact(),
            base <= 0,
        ensures
            self.penalised(id, base).flags_are_exact(),
    {
        self.lemma_known_exact(id);
        self.lemma_known_wf(id);
        law_penalty_keeps_flag_exact(self.known(id), base, self.cfg);
        self.lemma_ensured(id);
        self.lemma_ensured_exact(id);
        self.ensured(id).lemma_with_peer_exact(id, self.known(id).after_offence(base, self.cfg));
    }
}

/// The pipeline keeps the quarantine flags exact: after a step from a
/// validator in which every quarantined peer is beyond tolerance, every
/// quarantined peer is beyond tolerance.
pub proof fn law_step_keeps_flags_exact(
    v: ValidatorView,
    now: u64,
    forwarder: Seq<u8>,
    author: Option<Seq<u8>>,
    bytes: Seq<u8>,
)
    requires
        v.wf(),
        v.flags_are_exact(),
    ensures
        v.step(now, forwarder, author, bytes).0.flags_are_exact(),
{
    let target = blame_target(forwarder, author);
    let key = content_hash(bytes);
    if v.is_quarantined(forwarder) {
    } else if bytes.len() > v.cfg.max_message_bytes {
        v.lemma_penalised_exact(target, OVERSIZE_PENALTY);
    } else {
        let checked = v.rate_checked(now, forwarder);
        let known = v.known(forwarder);
        v.lemma_rate_checked(now, forwarder);
        v.lemma_known_exact(forwarder);
        v.lemma_ensured(forwarder);
        v.lemma_ensured_exact(forwarder);
        v.ensured(forwarder).lemma_with_peer_exact(
            forwarder,
            PeerState { bucket: known.bucket.after_consume(now, 1), ..known },
        );
        assert(checked.flags_are_exact());
        if !v.has_token(now, forwarder) {
            checked.lemma_penalised_exact(forwarder, RATE_LIMIT_PENALTY);
        } else {
            match spec_decode(bytes) {
                Err(_) => {
                    checked.lemma_penalised_exact(target, DECODE_PENALTY);
                },
                Ok(msg) => {
                    if !checked.dedupe.contains(key) {
                        let seen = checked.remembered(key);
                        checked.lemma_remembered(key);
                        assert(seen.flags_are_exact());
                        match msg {
                            MessageView::Good { seq, payload } => {
                                if payload.len() == 0 {
                                    seen.lemma_penalised_exact(target, EMPTY_PAYLOAD_PENALTY);
                                } else if !seen.is_replay(target, seq) {
                                    seen.lemma_known_exact(target);
                                    seen.lemma_ensured(target);
                                    seen.lemma_ensured_exact(target);
                                    seen.ensured(target).lemma_with_peer_exact(
                                        target,
                                        seen.noted(target, seq),
                                    );
                                }
                            },
                            MessageView::Bad => {
                                seen.lemma_penalised_exact(target, MALICIOUS_PENALTY);
                            },
                        }
                    }
                },
            }
        }
    }
}

/// With a quarantine threshold below zero, and in a validator whose
/// flags are exact, a peer in the registry is quarantined if and only if
/// its score is at or below the threshold or its offences are above the
/// hard cap. The flags are exact in a validator that has seen nothing, and
/// every step of the pipeline keeps them so; a reward recorded by hand
/// may leave a flag set that the rule no longer asks for.
pub proof fn law_quarantine_rule_is_exact(v: ValidatorView, id: Seq<u8>)
    requires
        v.wf(),
        v.flags_are_exact(),
        v.cfg.quarantine_threshold < 0,
        v.peer(id) is Some,
    ensures
        v.is_quarantined(id) <==> PeerState::beyond_tolerance(
            v.peer_score(id),
            v.offences(id),
            v.cfg,
        ),
{
    lemma_position_some(v.peers, id);
}

/// After a reject, the peer that the verdict is held against is in the
/// registry with an offence on record, so that its score is there for the
/// overlay: the forwarder's after a rate-limit reject, else the author's,
/// or the forwarder's in its place.
pub proof fn law_reject_scores_the_blamed_peer(
    v: ValidatorView,
    now: u64,
    forwarder: Seq<u8>,
    author: Option<Seq<u8>>,
    bytes: Seq<u8>,
)
    requires
        v.wf(),
        v.step(now, forwarder, author, bytes).1.acceptance == Acceptance::Reject,
    ensures
        ({
            let (after, decision) = v.step(now, forwarder, author, bytes);
            let blamed = blamed_peer(forwarder, author, decision.reason);
            &&& after.peer(blamed) is Some
            &&& after.offences(blamed) >= 1
            &&& after.app_score(blamed) == Some(after.peer_score(blamed))
            &&& decision.reason == Reason::RateLimited ==> after.peer(blamed) == Some(
                v.rate_checked(now, forwarder).known(forwarder).after_offence(
                    RATE_LIMIT_PENALTY,
                    v.cfg,
                ),
            )
        }),
{
    let target = blame_target(forwarder, author);
    let key = content_hash(bytes);
    if v.is_quarantined(forwarder) {
    } else if bytes.len() > v.cfg.max_message_bytes {
        v.lemma_penalised(target, OVERSIZE_PENALTY);
        v.lemma_known_wf(target);
        lemma_after_offence_wf(v.known(target), OVERSIZE_PENALTY, v.cfg);
    } else {
        let checked = v.rate_checked(now, forwarder);
        v.lemma_rate_checked(now, forwarder);
        if !v.has_token(now, forwarder) {
            checked.lemma_penalised(forwarder, RATE_LIMIT_PENALTY);
            checked.lemma_known_wf(forwarder);
            lemma_after_offence_wf(checked.known(forwarder), RATE_LIMIT_PENALTY, v.cfg);
        } else {
            match spec_decode(bytes) {
                Err(_) => {
                    checked.lemma_penalised(target, DECODE_PENALTY);
                    checked.lemma_known_wf(target);
                    lemma_after_offence_wf(checked.known(target), DECODE_PENALTY, v.cfg);
                },
                Ok(msg) => {
                    if !checked.dedupe.contains(key) {
                        let seen = checked.remembered(key);
                        checked.lemma_remembered(key);
                        seen.lemma_known_wf(target);
                        match msg {
                            MessageView::Good { seq, payload } => {
                                if payload.len() == 0 {
                                    seen.lemma_penalised(target, EMPTY_PAYLOAD_PENALTY);
                                    lemma_after_offence_wf(
                                        seen.known(target),
                                        EMPTY_PAYLOAD_PENALTY,
                                        v.cfg,
                                    );
                                }
                            },
                            MessageView::Bad => {
                                seen.lemma_penalised(target, MALICIOUS_PENALTY);
                                lemma_after_offence_wf(
                                    seen.known(target),
                                    MALICIOUS_PENALTY,
                                    v.cfg,
                                );
                            },
                        }
                    }
                },
            }
        }
    }
}

/// The dedupe cache changes only when a message passes the first four
/// rules and is no duplicate.
pub proof fn law_dedupe_tracks_decoded_traffic(
    v: ValidatorView,
    now: u64,
    forwarder: Seq<u8>,
    author: Option<Seq<u8>>,
    bytes: Seq<u8>,
)
    requires
        v.wf(),
    ensures
        v.step(now, forwarder, author, bytes).0.dedupe == if v.reaches_decoder(
            now,
            forwarder,
            bytes,
        ) && spec_decode(bytes) is Ok && !v.dedupe.contains(content_hash(bytes)) {
            v.remembered(content_hash(bytes)).dedupe
        } else {
            v.dedupe
        },
{
    let target = blame_target(forwarder, author);
    let key = content_hash(bytes);
    let checked = v.rate_checked(now, forwarder);
    v.lemma_penalised(target, OVERSIZE_PENALTY);
    v.lemma_rate_checked(now, forwarder);
    checked.lemma_penalised(forwarder, RATE_LIMIT_PENALTY);
    checked.lemma_penalised(target, DECODE_PENALTY);
    let seen = checked.remembered(key);
    checked.lemma_remembered(key);
    seen.lemma_penalised(target, EMPTY_PAYLOAD_PENALTY);
    seen.lemma_penalised(target, MALICIOUS_PENALTY);
    match spec_decode(bytes) {
        Ok(MessageView::Good { seq, payload }) => {
            seen.lemma_with_last_seq(target, seq);
        },
        _ => {},
    }
}

/// Every message that reaches the rate limiter costs the forwarder a
/// token if it has one, whatever becomes of the message.
pub proof fn law_token_is_taken(
    v: ValidatorView,
    now: u64,
    forwarder: Seq<u8>,
    author: Option<Seq<u8>>,
    bytes: Seq<u8>,
)
    requires
        v.wf(),
        v.reaches_rate_limit(forwarder, bytes),
        v.step(now, forwarder, author, bytes).0.peer(forwarder) is Some,
        forwarder == blame_target(forwarder, author) || !v.rate_checked(now, forwarder).displaces(
            blame_target(forwarder, author),
            forwarder,
        ),
    ensures
        v.step(now, forwarder, author, bytes).0.peer(forwarder).unwrap().bucket == v.known(
            forwarder,
        ).bucket.after_consume(now, 1),
{
    let target = blame_target(forwarder, author);
    let key = content_hash(bytes);
    let checked = v.rate_checked(now, forwarder);
    v.lemma_rate_checked(now, forwarder);
    v.lemma_known_wf(forwarder);
    let mid = checked.peer(forwarder).unwrap();
    lemma_position_some(checked.peers, forwarder);
    lemma_after_offence_wf(mid, RATE_LIMIT_PENALTY, v.cfg);
    lemma_after_offence_wf(mid, DECODE_PENALTY, v.cfg);
    lemma_after_offence_wf(mid, EMPTY_PAYLOAD_PENALTY, v.cfg);
    lemma_after_offence_wf(mid, MALICIOUS_PENALTY, v.cfg);
    checked.lemma_penalised(forwarder, RATE_LIMIT_PENALTY);
    checked.lemma_penalised(target, DECODE_PENALTY);
    let seen = checked.remembered(key);
    checked.lemma_remembered(key);
    seen.lemma_penalised(target, EMPTY_PAYLOAD_PENALTY);
    seen.lemma_penalised(target, MALICIOUS_PENALTY);
    match spec_decode(bytes) {
        Ok(MessageView::Good { seq, payload }) => {
            seen.lemma_with_last_seq(target, seq);
        },
        _ => {},
    }
}

} // verus!
