//! Runs of the pipeline over a sequence of arrivals, and what holds of
//! every run.

use crate::bucket::{
    admitted,
    after_arrivals,
    conforming,
    lemma_arrivals,
    lemma_consume_keeps_order,
    lemma_consume_lowers,
    lemma_full_stays_full,
    lemma_level_is_capped,
    TokenBucket,
    MICROS,
};
use crate::codec::{spec_decode, MessageView};
use crate::decision::{Decision, Reason};
use crate::laws::{
    law_last_seq_never_falls,
    law_quarantine_is_sticky,
    law_step_keeps_flags_exact,
};
use crate::digest::content_hash;
use crate::model::{blame_target, lemma_fresh_wf, ValidatorView};
use crate::peers::PeerState;
use crate::scoring::{
    law_delta_keeps_sign,
    DECODE_PENALTY,
    EMPTY_PAYLOAD_PENALTY,
    MALICIOUS_PENALTY,
    OVERSIZE_PENALTY,
    RATE_LIMIT_PENALTY,
};
use vstd::prelude::*;

verus! {

/// A message as it arrives at a validator.
pub struct Arrival {
    /// Time of arrival, in microseconds.
    pub now: u64,
    /// The peer that handed the message over.
    pub forwarder: Seq<u8>,
    /// The peer that published the message, if the overlay says.
    pub author: Option<Seq<u8>>,
    /// The message.
    pub bytes: Seq<u8>,
}

/// The times of the arrivals that `peer` forwarded, among the first `k`.
pub open spec fn times_from(arrivals: Seq<Arrival>, peer: Seq<u8>, k: nat) -> Seq<u64>
    decreases k,
{
    if k == 0 {
        Seq::empty()
    } else if arrivals[k - 1].forwarder == peer {
        times_from(arrivals, peer, (k - 1) as nat).push(arrivals[k - 1].now)
    } else {
        times_from(arrivals, peer, (k - 1) as nat)
    }
}

/// A full bucket as the configuration makes it.
pub open spec fn full_bucket(v: ValidatorView) -> TokenBucket {
    PeerState::fresh(v.cfg).bucket
}

impl ValidatorView {
    /// The validator after an arrival.
    pub open spec fn after(self, arrival: Arrival) -> ValidatorView {
        self.step(arrival.now, arrival.forwarder, arrival.author, arrival.bytes).0
    }

    /// The verdict on an arrival.
    pub open spec fn verdict(self, arrival: Arrival) -> Decision {
        self.step(arrival.now, arrival.forwarder, arrival.author, arrival.bytes).1
    }

    /// The validator after the first `k` arrivals.
    pub open spec fn run(self, arrivals: Seq<Arrival>, k: nat) -> ValidatorView
        decreases k,
    {
        if k == 0 {
            self
        } else {
            self.run(arrivals, (k - 1) as nat).after(arrivals[k - 1])
        }
    }

    /// The bucket of a peer after a penalty for `id`: what it was, or a
    /// full one if the peer has left the registry.
    pub proof fn lemma_bucket_after_penalised(self, id: Seq<u8>, base: i64, peer: Seq<u8>)
        requires
            self.wf(),
        ensures
            self.penalised(id, base).known(peer).bucket == self.known(peer).bucket
                || self.penalised(id, base).known(peer).bucket == full_bucket(self),
    {
        self.lemma_penalised(id, base);
    }

    /// The bucket of a peer after a sequence number was noted for `id`:
    /// what it was, or a full one if the peer has left the registry.
    pub proof fn lemma_bucket_after_last_seq(self, id: Seq<u8>, seq: u64, peer: Seq<u8>)
        requires
            self.wf(),
        ensures
            self.with_last_seq(id, seq).known(peer).bucket == self.known(peer).bucket
                || self.with_last_seq(id, seq).known(peer).bucket == full_bucket(self),
    {
        self.lemma_with_last_seq(id, seq);
    }

    /// The bucket of a peer after `forwarder` was asked for a token: one
    /// token down if the peer is the forwarder; else what it was, or a
    /// full one if the peer has left the registry.
    pub proof fn lemma_bucket_after_rate_check(self, now: u64, forwarder: Seq<u8>, peer: Seq<u8>)
        requires
            self.wf(),
        ensures
            peer == forwarder ==> self.rate_checked(now, forwarder).known(peer).bucket
                == self.known(peer).bucket.after_consume(now, 1),
            peer != forwarder ==> self.rate_checked(now, forwarder).known(peer).bucket
                == self.known(peer).bucket || self.rate_checked(now, forwarder).known(
                peer,
            ).bucket == full_bucket(self),
    {
        self.lemma_rate_checked(now, forwarder);
    }

    /// The bucket of a peer after rules 5 to 9: what it was, or a full one
    /// if the peer has left the registry.
    pub proof fn lemma_bucket_after_content(
        self,
        target: Seq<u8>,
        msg: MessageView,
        key: Seq<u8>,
        peer: Seq<u8>,
    )
        requires
            self.wf(),
        ensures
            self.content_step(target, msg, key).0.known(peer).bucket == self.known(peer).bucket
                || self.content_step(target, msg, key).0.known(peer).bucket == full_bucket(self),
    {
        let seen = self.remembered(key);
        self.lemma_remembered(key);
        assert(seen.known(peer) == self.known(peer));
        if !self.dedupe.contains(key) {
            match msg {
                MessageView::Good { seq, payload } => {
                    if payload.len() == 0 {
                        seen.lemma_bucket_after_penalised(target, EMPTY_PAYLOAD_PENALTY, peer);
                    } else if !seen.is_replay(target, seq) {
                        seen.lemma_bucket_after_last_seq(target, seq, peer);
                    }
                },
                MessageView::Bad => {
                    seen.lemma_bucket_after_penalised(target, MALICIOUS_PENALTY, peer);
                },
            }
        }
    }

    /// The bucket of a peer after an arrival: one token down, if the peer
    /// forwarded the arrival and it reached the rate limiter; what it was;
    /// or a full one, if the peer has left the registry.
    pub proof fn lemma_bucket_after_arrival(self, arrival: Arrival, peer: Seq<u8>)
        requires
            self.wf(),
        ensures
            self.after(arrival).wf(),
            self.after(arrival).cfg == self.cfg,
            ({
                ||| self.after(arrival).known(peer).bucket == self.known(peer).bucket
                ||| self.after(arrival).known(peer).bucket == full_bucket(self)
                ||| (arrival.forwarder == peer && self.reaches_rate_limit(peer, arrival.bytes)
                    && self.after(arrival).known(peer).bucket == self.known(
                    peer,
                ).bucket.after_consume(arrival.now, 1))
            }),
            arrival.forwarder == peer && self.verdict(arrival).reason == Reason::RateLimited
                ==> self.reaches_rate_limit(peer, arrival.bytes) && !self.known(
                peer,
            ).bucket.can_consume(arrival.now, 1),
    {
        let now = arrival.now;
        let forwarder = arrival.forwarder;
        let bytes = arrival.bytes;
        let target = blame_target(forwarder, arrival.author);
        let key = content_hash(bytes);
        self.lemma_step_with_key(now, forwarder, arrival.author, bytes, key);
        if self.is_quarantined(forwarder) {
        } else if bytes.len() > self.cfg.max_message_bytes {
            self.lemma_bucket_after_penalised(target, OVERSIZE_PENALTY, peer);
        } else {
            let checked = self.rate_checked(now, forwarder);
            self.lemma_rate_checked(now, forwarder);
            self.lemma_bucket_after_rate_check(now, forwarder, peer);
            if !self.has_token(now, forwarder) {
                checked.lemma_bucket_after_penalised(forwarder, RATE_LIMIT_PENALTY, peer);
            } else {
                match spec_decode(bytes) {
                    Err(_) => {
                        checked.lemma_bucket_after_penalised(target, DECODE_PENALTY, peer);
                    },
                    Ok(msg) => {
                        checked.lemma_bucket_after_content(target, msg, key, peer);
                    },
                }
            }
        }
    }

    /// A run keeps the validator well formed: the registry and the dedupe
    /// cache are within their capacities after every arrival.
    pub proof fn law_run_keeps_bounds(self, arrivals: Seq<Arrival>, k: nat)
        requires
            self.wf(),
            k <= arrivals.len(),
        ensures
            self.run(arrivals, k).wf(),
            self.run(arrivals, k).cfg == self.cfg,
            self.run(arrivals, k).peers.len() <= self.cfg.max_peers,
            self.run(arrivals, k).dedupe.len() <= self.cfg.max_dedupe,
        decreases k,
    {
        if k > 0 {
            self.law_run_keeps_bounds(arrivals, (k - 1) as nat);
            let prev = self.run(arrivals, (k - 1) as nat);
            let a = arrivals[k - 1];
            prev.lemma_step_with_key(a.now, a.forwarder, a.author, a.bytes, content_hash(a.bytes));
        }
    }
}

/// Whether `id` keeps its place in the registry from arrival `from` up to
/// arrival `to`: no forwarder takes its room, and it is in the registry
/// after each arrival.
pub open spec fn keeps_place(
    v: ValidatorView,
    arrivals: Seq<Arrival>,
    id: Seq<u8>,
    from: nat,
    to: nat,
) -> bool {
    forall|j: nat|
        from <= j < to ==> !(#[trigger] v.run(arrivals, j)).gives_way(
            arrivals[j as int].forwarder,
            arrivals[j as int].bytes,
            id,
        ) && v.run(arrivals, j + 1).peer(id) is Some
}

/// A peer that is quarantined stays quarantined for as long as it keeps
/// its place in the registry.
pub proof fn law_quarantine_lasts(
    v: ValidatorView,
    arrivals: Seq<Arrival>,
    id: Seq<u8>,
    from: nat,
    to: nat,
)
    requires
        v.wf(),
        from <= to <= arrivals.len(),
        v.run(arrivals, from).is_quarantined(id),
        keeps_place(v, arrivals, id, from, to),
    ensures
        v.run(arrivals, to).is_quarantined(id),
    decreases to,
{
    if from < to {
        let last = (to - 1) as nat;
        law_quarantine_lasts(v, arrivals, id, from, last);
        v.law_run_keeps_bounds(arrivals, last);
        let before = v.run(arrivals, last);
        let a = arrivals[last as int];
        assert(!before.gives_way(a.forwarder, a.bytes, id) && v.run(arrivals, last + 1).peer(id) is Some);
        law_quarantine_is_sticky(before, a.now, a.forwarder, a.author, a.bytes, id);
    }
}

/// The last sequence number on record for a peer does not fall for as
/// long as the peer keeps its place in the registry.
pub proof fn law_last_seq_lasts(
    v: ValidatorView,
    arrivals: Seq<Arrival>,
    id: Seq<u8>,
    from: nat,
    to: nat,
    last_seq: u64,
)
    requires
        v.wf(),
        from <= to <= arrivals.len(),
        v.run(arrivals, from).last_seq(id) == Some(last_seq),
        keeps_place(v, arrivals, id, from, to),
    ensures
        v.run(arrivals, to).last_seq(id) matches Some(next) && next >= last_seq,
    decreases to,
{
    if from < to {
        let last = (to - 1) as nat;
        law_last_seq_lasts(v, arrivals, id, from, last, last_seq);
        v.law_run_keeps_bounds(arrivals, last);
        let before = v.run(arrivals, last);
        let a = arrivals[last as int];
        assert(!before.gives_way(a.forwarder, a.bytes, id) && v.run(arrivals, last + 1).peer(id) is Some);
        law_last_seq_never_falls(
            before,
            a.now,
            a.forwarder,
            a.author,
            a.bytes,
            id,
            before.last_seq(id).unwrap(),
        );
    }
}

/// A run keeps the quarantine flags exact: if no peer was quarantined at
/// the start that was not beyond tolerance, none is after any number of
/// arrivals.
pub proof fn law_run_keeps_flags_exact(v: ValidatorView, arrivals: Seq<Arrival>, k: nat)
    requires
        v.wf(),
        v.flags_are_exact(),
        k <= arrivals.len(),
    ensures
        v.run(arrivals, k).flags_are_exact(),
    decreases k,
{
    if k > 0 {
        let last = (k - 1) as nat;
        law_run_keeps_flags_exact(v, arrivals, last);
        v.law_run_keeps_bounds(arrivals, last);
        let a = arrivals[last as int];
        law_step_keeps_flags_exact(v.run(arrivals, last), a.now, a.forwarder, a.author, a.bytes);
    }
}

/// Whether `actual` holds at least as much as `ideal` at every time from
/// `from` on.
pub open spec fn keeps_up(actual: TokenBucket, ideal: TokenBucket, from: u64) -> bool {
    forall|now: u64| now >= from ==> actual.level_at(now) >= #[trigger] ideal.level_at(now)
}

/// The time of the latest arrival that `peer` forwarded among the first
/// `k`; zero if there is none.
pub open spec fn latest_from(arrivals: Seq<Arrival>, peer: Seq<u8>, k: nat) -> u64 {
    if times_from(arrivals, peer, k).len() == 0 {
        0
    } else {
        times_from(arrivals, peer, k).last()
    }
}

/// The times that a peer forwarded at grow with the number of arrivals
/// looked at, and what was there stays.
pub proof fn lemma_times_grow(arrivals: Seq<Arrival>, peer: Seq<u8>, k: nat, m: nat)
    requires
        k <= m,
    ensures
        times_from(arrivals, peer, k).len() <= times_from(arrivals, peer, m).len(),
        forall|i: int|
            0 <= i < times_from(arrivals, peer, k).len() ==> times_from(arrivals, peer, m)[i]
                == times_from(arrivals, peer, k)[i],
    decreases m,
{
    if k < m {
        lemma_times_grow(arrivals, peer, k, (m - 1) as nat);
    }
}

/// The bucket of a peer during a run is never behind the bucket of a
/// sender that does nothing but send at the times at which the peer
/// forwarded, provided those times keep to rate and burst and the peer's
/// bucket was full at the start.
pub proof fn lemma_run_keeps_up(v: ValidatorView, arrivals: Seq<Arrival>, peer: Seq<u8>, k: nat)
    requires
        v.wf(),
        v.known(peer).bucket.level == v.known(peer).bucket.full_level(),
        conforming(
            times_from(arrivals, peer, arrivals.len()),
            v.cfg.token_bucket_capacity,
            v.cfg.token_refill_rate,
        ),
        k <= arrivals.len(),
    ensures
        v.run(arrivals, k).wf(),
        v.run(arrivals, k).cfg == v.cfg,
        keeps_up(
            v.run(arrivals, k).known(peer).bucket,
            after_arrivals(
                full_bucket(v),
                times_from(arrivals, peer, arrivals.len()),
                times_from(arrivals, peer, k).len(),
            ),
            latest_from(arrivals, peer, k),
        ),
    decreases k,
{
    let all = times_from(arrivals, peer, arrivals.len());
    let start = full_bucket(v);
    let j = times_from(arrivals, peer, k).len();
    let ideal = after_arrivals(start, all, j);
    let actual = v.run(arrivals, k).known(peer).bucket;
    lemma_fresh_wf(v.cfg);
    lemma_times_grow(arrivals, peer, k, arrivals.len());
    if k == 0 {
        v.lemma_known_wf(peer);
        assert forall|now: u64| now >= 0 implies actual.level_at(now) >= #[trigger] ideal.level_at(
            now,
        ) by {
            lemma_full_stays_full(actual, now);
            lemma_full_stays_full(ideal, now);
        }
    } else {
        let before = v.run(arrivals, (k - 1) as nat);
        let a = arrivals[k - 1];
        let j0 = times_from(arrivals, peer, (k - 1) as nat).len();
        let ideal0 = after_arrivals(start, all, j0);
        let actual0 = before.known(peer).bucket;
        let from0 = latest_from(arrivals, peer, (k - 1) as nat);
        lemma_run_keeps_up(v, arrivals, peer, (k - 1) as nat);
        lemma_times_grow(arrivals, peer, (k - 1) as nat, arrivals.len());
        before.lemma_bucket_after_arrival(a, peer);
        before.lemma_known_wf(peer);
        lemma_arrivals(start, all, j0);
        assert(ideal0.wf());
        if a.forwarder == peer {
            let t = a.now;
            assert(j == j0 + 1);
            assert(times_from(arrivals, peer, k)[j0 as int] == t);
            assert(all[j0 as int] == t);
            assert(ideal == ideal0.after_consume(t, 1));
            assert(latest_from(arrivals, peer, k) == t);
            // The ideal sender was last refilled no later than now.
            if j0 > 0 {
                assert(all[j0 - 1] == times_from(arrivals, peer, (k - 1) as nat)[j0 - 1]);
                assert(all[j0 - 1] <= all[j0 as int]);
                assert(from0 == all[j0 - 1]);
            }
            assert(ideal0.last <= t);
            assert(from0 <= t);
            assert(admitted(start, all, j0));
            assert(ideal0.can_consume(t, 1));
            assert(actual0.level_at(t) >= ideal0.level_at(t));
            assert forall|now: u64| now >= t implies actual.level_at(now) >= #[trigger] ideal.level_at(
                now,
            ) by {
                lemma_level_is_capped(ideal, now);
                if actual == actual0 {
                    lemma_consume_lowers(ideal0, t, now);
                    assert(actual0.level_at(now) >= ideal0.level_at(now));
                } else if actual == start {
                    lemma_full_stays_full(start, now);
                } else {
                    lemma_consume_keeps_order(actual0, ideal0, t, now);
                }
            }
        } else {
            assert(j == j0);
            assert(ideal == ideal0);
            assert(latest_from(arrivals, peer, k) == from0);
            assert forall|now: u64| now >= from0 implies actual.level_at(now)
                >= #[trigger] ideal.level_at(now) by {
                lemma_level_is_capped(ideal, now);
                if actual == actual0 {
                    assert(actual0.level_at(now) >= ideal0.level_at(now));
                } else {
                    lemma_full_stays_full(start, now);
                }
            }
        }
    }
}

/// A peer whose bucket is full at the start of a run, and that forwards
/// within the bucket's rate and burst, is never rate limited during the
/// run, whatever else arrives, and whatever becomes of its messages.
pub proof fn law_fair_throughput(v: ValidatorView, arrivals: Seq<Arrival>, peer: Seq<u8>, k: nat)
    requires
        v.wf(),
        v.known(peer).bucket.level == v.known(peer).bucket.full_level(),
        conforming(
            times_from(arrivals, peer, arrivals.len()),
            v.cfg.token_bucket_capacity,
            v.cfg.token_refill_rate,
        ),
        k < arrivals.len(),
        arrivals[k as int].forwarder == peer,
    ensures
        v.run(arrivals, k).verdict(arrivals[k as int]).reason != Reason::RateLimited,
{
    let all = times_from(arrivals, peer, arrivals.len());
    let start = full_bucket(v);
    let j = times_from(arrivals, peer, k).len();
    let ideal = after_arrivals(start, all, j);
    let before = v.run(arrivals, k);
    let a = arrivals[k as int];
    lemma_fresh_wf(v.cfg);
    lemma_run_keeps_up(v, arrivals, peer, k);
    lemma_times_grow(arrivals, peer, k, arrivals.len());
    lemma_times_grow(arrivals, peer, k + 1, arrivals.len());
    assert(times_from(arrivals, peer, k + 1)[j as int] == a.now);
    assert(all[j as int] == a.now);
    lemma_arrivals(start, all, j);
    assert(admitted(start, all, j));
    if j > 0 {
        assert(all[j - 1] == times_from(arrivals, peer, k)[j - 1]);
        assert(all[j - 1] <= all[j as int]);
    }
    assert(latest_from(arrivals, peer, k) <= a.now);
    assert(before.known(peer).bucket.level_at(a.now) >= ideal.level_at(a.now));
    before.lemma_bucket_after_arrival(a, peer);
}

/// A validator that has seen nothing knows every peer by a full bucket.
pub proof fn law_initial_buckets_are_full(cfg: crate::config::ValidatorConfig, peer: Seq<u8>)
    ensures
        ValidatorView::initial(cfg).wf(),
        ValidatorView::initial(cfg).known(peer).bucket.level == ValidatorView::initial(cfg).known(
            peer,
        ).bucket.full_level(),
{
    lemma_fresh_wf(cfg.normalized());
}

/// The validator after the first `k` of the messages `msgs`, which `peer`
/// forwards at the one instant `now`, when their content hashes are `keys`.
pub open spec fn burst(
    v: ValidatorView,
    now: u64,
    peer: Seq<u8>,
    author: Option<Seq<u8>>,
    msgs: Seq<Seq<u8>>,
    keys: Seq<Seq<u8>>,
    k: nat,
) -> ValidatorView
    decreases k,
{
    if k == 0 {
        v
    } else {
        burst(v, now, peer, author, msgs, keys, (k - 1) as nat).step_with_key(
            now,
            peer,
            author,
            msgs[k - 1],
            keys[k - 1],
        ).0
    }
}

/// The verdict on message `k` of a burst.
pub open spec fn burst_verdict(
    v: ValidatorView,
    now: u64,
    peer: Seq<u8>,
    author: Option<Seq<u8>>,
    msgs: Seq<Seq<u8>>,
    keys: Seq<Seq<u8>>,
    k: nat,
) -> Decision {
    burst(v, now, peer, author, msgs, keys, k).step_with_key(
        now,
        peer,
        author,
        msgs[k as int],
        keys[k as int],
    ).1
}

/// The sequence number of a `Good` message; zero for other bytes.
pub open spec fn seq_of(bytes: Seq<u8>) -> u64 {
    match spec_decode(bytes) {
        Ok(MessageView::Good { seq, .. }) => seq,
        _ => 0,
    }
}

/// Whether every one of `msgs` is a `Good` message with a payload and
/// within the size limit `max`, and their sequence numbers rise from above
/// zero.
pub open spec fn news_in_order(msgs: Seq<Seq<u8>>, max: usize) -> bool {
    &&& forall|i: int|
        0 <= i < msgs.len() ==> (#[trigger] msgs[i]).len() <= max && seq_of(msgs[i]) > 0 && (
        spec_decode(msgs[i]) matches Ok(MessageView::Good { payload, .. }) && payload.len() > 0)
    &&& forall|i: int, j: int|
        0 <= i < j < msgs.len() ==> seq_of(#[trigger] msgs[i]) < seq_of(#[trigger] msgs[j])
}

/// Whether `keys` are hashes of messages never seen and all different.
pub open spec fn fresh_keys(v: ValidatorView, keys: Seq<Seq<u8>>) -> bool {
    &&& keys.no_duplicates()
    &&& forall|i: int| 0 <= i < keys.len() ==> !v.dedupe.contains(#[trigger] keys[i])
}

/// During a burst of valid, different messages from a peer that starts
/// with a full bucket, every message is accepted while tokens last, and
/// each costs one token.
pub proof fn lemma_burst(
    v: ValidatorView,
    now: u64,
    peer: Seq<u8>,
    author: Option<Seq<u8>>,
    msgs: Seq<Seq<u8>>,
    keys: Seq<Seq<u8>>,
    k: nat,
)
    requires
        v.wf(),
        v.known(peer) == PeerState::fresh(v.cfg),
        blame_target(peer, author) == peer,
        msgs.len() == keys.len(),
        news_in_order(msgs, v.cfg.max_message_bytes),
        fresh_keys(v, keys),
        k <= msgs.len(),
        k <= v.cfg.token_bucket_capacity,
    ensures
        burst(v, now, peer, author, msgs, keys, k).wf(),
        burst(v, now, peer, author, msgs, keys, k).cfg == v.cfg,
        burst(v, now, peer, author, msgs, keys, k).known(peer).score == 0,
        burst(v, now, peer, author, msgs, keys, k).known(peer).offences == 0,
        !burst(v, now, peer, author, msgs, keys, k).known(peer).quarantined,
        burst(v, now, peer, author, msgs, keys, k).known(peer).bucket.level_at(now)
            == v.cfg.token_bucket_capacity * MICROS - k * MICROS,
        burst(v, now, peer, author, msgs, keys, k).known(peer).last_seq == if k == 0 {
            None::<u64>
        } else {
            Some(seq_of(msgs[k - 1]))
        },
        forall|key: Seq<u8>|
            burst(v, now, peer, author, msgs, keys, k).dedupe.contains(key) ==> v.dedupe.contains(
                key,
            ) || exists|j: int| 0 <= j < k && #[trigger] keys[j] == key,
        k > 0 ==> burst_verdict(v, now, peer, author, msgs, keys, (k - 1) as nat)
            == Decision::accepted(),
    decreases k,
{
    lemma_fresh_wf(v.cfg);
    if k == 0 {
        lemma_full_stays_full(v.known(peer).bucket, now);
    } else {
        let i = (k - 1) as nat;
        lemma_burst(v, now, peer, author, msgs, keys, i);
        let b = burst(v, now, peer, author, msgs, keys, i);
        let m = msgs[i as int];
        let key = keys[i as int];
        let known = b.known(peer);
        b.lemma_known_wf(peer);
        lemma_level_is_capped(known.bucket, now);
        crate::bucket::law_level_stays_in_range(known.bucket, now, 1);
        // The peer has a token.
        assert(known.bucket.level_at(now) >= MICROS) by (nonlinear_arith)
            requires
                known.bucket.level_at(now) == v.cfg.token_bucket_capacity * MICROS - i * MICROS,
                i < v.cfg.token_bucket_capacity,
                MICROS == 1_000_000,
        ;
        assert(known.bucket.can_consume(now, 1));
        let spent = known.bucket.after_consume(now, 1);
        assert(spent.level == known.bucket.level_at(now) - MICROS);
        assert(spent.elapsed(now) == 0);
        assert(spent.level_at(now) == spent.level);
        assert(spent.level_at(now) == v.cfg.token_bucket_capacity * MICROS - k * MICROS)
            by (nonlinear_arith)
            requires
                spent.level_at(now) == v.cfg.token_bucket_capacity * MICROS - i * MICROS - MICROS,
                k == i + 1,
        ;
        let checked = b.rate_checked(now, peer);
        b.lemma_rate_checked(now, peer);
        // The message is no duplicate.
        assert(m == msgs[i as int] && key == keys[i as int]);
        if checked.dedupe.contains(key) {
            if !v.dedupe.contains(key) {
                let j = choose|j: int| 0 <= j < i && #[trigger] keys[j] == key;
                assert(keys[j] == keys[i as int]);
            }
        }
        let seen = checked.remembered(key);
        checked.lemma_remembered(key);
        assert(seen.known(peer) == checked.known(peer));
        // The message is news.
        let seq = seq_of(m);
        if i > 0 {
            assert(seq_of(msgs[i - 1]) < seq_of(msgs[i as int]));
        }
        assert(!seen.is_replay(peer, seq));
        seen.lemma_with_last_seq(peer, seq);
        let after = seen.with_last_seq(peer, seq);
        assert(b.step_with_key(now, peer, author, m, key) == (after, Decision::accepted()));
        assert(burst(v, now, peer, author, msgs, keys, k) == after);
        assert forall|other: Seq<u8>| after.dedupe.contains(other) implies v.dedupe.contains(other)
            || exists|j: int| 0 <= j < k && #[trigger] keys[j] == other by {
            if other == key {
                assert(keys[i as int] == other);
            } else {
                assert(b.dedupe.contains(other));
                if !v.dedupe.contains(other) {
                    let j = choose|j: int| 0 <= j < i && #[trigger] keys[j] == other;
                    assert(0 <= j < k && keys[j] == other);
                }
            }
        }
    }
}

/// A peer that starts with a full bucket and forwards, at one instant, one
/// more valid and different message than the bucket holds tokens: every
/// message is accepted but the last, which is rejected as rate limited.
/// The peer then has the base penalty for its score and one offence, the
/// last sequence number accepted for its last, and is quarantined only if
/// that one penalty puts it beyond tolerance.
pub proof fn law_burst_then_limit(
    v: ValidatorView,
    now: u64,
    peer: Seq<u8>,
    author: Option<Seq<u8>>,
    msgs: Seq<Seq<u8>>,
    keys: Seq<Seq<u8>>,
)
    requires
        v.wf(),
        v.known(peer) == PeerState::fresh(v.cfg),
        blame_target(peer, author) == peer,
        msgs.len() == keys.len(),
        msgs.len() == v.cfg.token_bucket_capacity + 1,
        news_in_order(msgs, v.cfg.max_message_bytes),
        fresh_keys(v, keys),
    ensures
        forall|i: nat|
            i < v.cfg.token_bucket_capacity ==> #[trigger] burst_verdict(
                v,
                now,
                peer,
                author,
                msgs,
                keys,
                i,
            ) == Decision::accepted(),
        burst_verdict(v, now, peer, author, msgs, keys, v.cfg.token_bucket_capacity as nat)
            == Decision::rejected(Reason::RateLimited, RATE_LIMIT_PENALTY),
        ({
            let end = burst(v, now, peer, author, msgs, keys, msgs.len());
            let capacity = v.cfg.token_bucket_capacity as int;
            &&& end.wf()
            &&& end.peer(peer) is Some
            &&& end.peer_score(peer) == RATE_LIMIT_PENALTY
            &&& end.offences(peer) == 1
            &&& end.last_seq(peer) == if capacity == 0 {
                None::<u64>
            } else {
                Some(seq_of(msgs[capacity - 1]))
            }
            &&& end.is_quarantined(peer) <==> PeerState::beyond_tolerance(
                RATE_LIMIT_PENALTY,
                1,
                v.cfg,
            )
        }),
{
    let capacity = v.cfg.token_bucket_capacity as nat;
    assert forall|i: nat| i < capacity implies #[trigger] burst_verdict(
        v,
        now,
        peer,
        author,
        msgs,
        keys,
        i,
    ) == Decision::accepted() by {
        lemma_burst(v, now, peer, author, msgs, keys, i + 1);
    }
    lemma_burst(v, now, peer, author, msgs, keys, capacity);
    let b = burst(v, now, peer, author, msgs, keys, capacity);
    let known = b.known(peer);
    let m = msgs[capacity as int];
    let key = keys[capacity as int];
    b.lemma_known_wf(peer);
    assert(known.bucket.level_at(now) == 0) by (nonlinear_arith)
        requires
            known.bucket.level_at(now) == v.cfg.token_bucket_capacity * MICROS - capacity
                * MICROS,
            capacity == v.cfg.token_bucket_capacity,
    ;
    assert(!known.bucket.can_consume(now, 1));
    assert(m.len() <= v.cfg.max_message_bytes);
    let checked = b.rate_checked(now, peer);
    b.lemma_rate_checked(now, peer);
    checked.lemma_penalised(peer, RATE_LIMIT_PENALTY);
    let end = checked.penalised(peer, RATE_LIMIT_PENALTY);
    assert(b.step_with_key(now, peer, author, m, key) == (
        end,
        Decision::rejected(Reason::RateLimited, RATE_LIMIT_PENALTY),
    ));
    assert(burst(v, now, peer, author, msgs, keys, msgs.len()) == end);
    law_delta_keeps_sign(RATE_LIMIT_PENALTY, 1, v.cfg.offence_scale);
}

} // verus!
