//! Token-bucket rate limiter.
//!
//! Time is a count of microseconds on a clock of the caller's choosing, and
//! the fill level is kept in millionths of a token, so that a refill rate in
//! whole tokens per second adds exactly `rate` units per microsecond.

use vstd::prelude::*;

verus! {

/// Level units per token, and microseconds per second.
pub const MICROS: u64 = 1_000_000;

/// A bucket of tokens that refills at a constant rate up to its capacity.
#[derive(Debug, Clone, Copy, PartialEq, Eq, Structural)]
pub struct TokenBucket {
    /// Most tokens the bucket holds.
    pub capacity: u32,
    /// Tokens added per second.
    pub refill_rate: u32,
    /// Fill level, in millionths of a token.
    pub level: u64,
    /// Time of the last refill, in microseconds.
    pub last: u64,
}

impl TokenBucket {
    /// Level of a full bucket.
    pub open spec fn full_level(self) -> int {
        self.capacity * MICROS
    }

    /// The level never exceeds the capacity.
    pub open spec fn wf(self) -> bool {
        self.level <= self.full_level()
    }

    /// Microseconds from the last refill to `now`; zero if the clock went back.
    pub open spec fn elapsed(self, now: u64) -> int {
        if now >= self.last {
            now - self.last
        } else {
            0
        }
    }

    /// Level at `now`, before anything is taken out.
    pub open spec fn level_at(self, now: u64) -> int {
        let refilled = self.level + self.elapsed(now) * self.refill_rate;
        if refilled > self.full_level() {
            self.full_level()
        } else {
            refilled
        }
    }

    /// Whether `amount` tokens are there at `now`.
    pub open spec fn can_consume(self, now: u64, amount: u32) -> bool {
        self.level_at(now) >= amount * MICROS
    }

    /// The bucket after an attempt to take `amount` tokens at `now`.
    pub open spec fn after_consume(self, now: u64, amount: u32) -> TokenBucket {
        let level = if self.can_consume(now, amount) {
            self.level_at(now) - amount * MICROS
        } else {
            self.level_at(now)
        };
        TokenBucket { level: level as u64, last: now, ..self }
    }

    /// A full bucket. The time of its last refill is zero: a full bucket
    /// holds its capacity at every time, so that the time at which it was
    /// made is of no account.
    pub fn new(capacity: u32, refill_rate: u32) -> (b: TokenBucket)
        ensures
            b == (TokenBucket { capacity, refill_rate, level: (capacity * MICROS) as u64, last: 0 }),
            b.wf(),
            b.level == b.full_level(),
    {
        assert(capacity * MICROS <= 0xffff_ffff * 1_000_000) by (nonlinear_arith)
            requires
                capacity <= 0xffff_ffff,
                MICROS == 1_000_000,
        ;
        let level: u64 = capacity as u64 * MICROS;
        TokenBucket { capacity, refill_rate, level, last: 0 }
    }

    /// Refills the bucket for the time since the last call, then takes
    /// `amount` tokens if they are there. Takes nothing otherwise.
    pub fn try_consume(&mut self, now: u64, amount: u32) -> (ok: bool)
        requires
            old(self).wf(),
        ensures
            ok == old(self).can_consume(now, amount),
            *final(self) == old(self).after_consume(now, amount),
            final(self).wf(),
    {
        let elapsed: u64 = if now >= self.last {
            now - self.last
        } else {
            0
        };
        assert(self.capacity * MICROS <= 0xffff_ffff * 1_000_000) by (nonlinear_arith)
            requires
                self.capacity <= 0xffff_ffff,
                MICROS == 1_000_000,
        ;
        assert(0 <= elapsed * self.refill_rate <= 0xffff_ffff_ffff_ffff * 0xffff_ffff)
            by (nonlinear_arith)
            requires
                0 <= elapsed <= 0xffff_ffff_ffff_ffff,
                0 <= self.refill_rate <= 0xffff_ffff,
        ;
        assert(amount * MICROS <= 0xffff_ffff * 1_000_000) by (nonlinear_arith)
            requires
                amount <= 0xffff_ffff,
                MICROS == 1_000_000,
        ;
        let full: u64 = self.capacity as u64 * MICROS;
        let gain: u128 = elapsed as u128 * self.refill_rate as u128;
        let refilled: u128 = self.level as u128 + gain;
        let level: u64 = if refilled > full as u128 {
            full
        } else {
            refilled as u64
        };
        let wanted: u64 = amount as u64 * MICROS;
        self.last = now;
        if level >= wanted {
            self.level = level - wanted;
            true
        } else {
            self.level = level;
            false
        }
    }

    /// Whole tokens in the bucket as of the last refill.
    pub fn tokens(&self) -> (n: u64)
        ensures
            n == self.level / MICROS,
    {
        self.level / MICROS
    }
}

/// The bucket after attempts to take one token at each of the first `k`
/// times of `times`.
pub open spec fn after_arrivals(b: TokenBucket, times: Seq<u64>, k: nat) -> TokenBucket
    decreases k,
{
    if k == 0 {
        b
    } else {
        after_arrivals(b, times, (k - 1) as nat).after_consume(times[k - 1], 1)
    }
}

/// Whether the arrival at `times[k]` finds a token, given the arrivals
/// before it.
pub open spec fn admitted(b: TokenBucket, times: Seq<u64>, k: nat) -> bool {
    after_arrivals(b, times, k).can_consume(times[k as int], 1)
}

/// Arrival times in order such that every run of consecutive arrivals fits
/// a burst of `capacity` tokens plus what `refill_rate` adds over the run.
pub open spec fn conforming(times: Seq<u64>, capacity: u32, refill_rate: u32) -> bool {
    &&& forall|i: int, j: int| 0 <= i <= j < times.len() ==> times[i] <= times[j]
    &&& forall|i: int, j: int|
        0 <= i <= j < times.len() ==> (j - i + 1) * MICROS <= capacity * MICROS + refill_rate * (
        #[trigger] times[j] - #[trigger] times[i])
}

/// Level left after arrival `k` of a run that began at arrival `i` with a
/// full bucket.
pub open spec fn run_floor(b: TokenBucket, times: Seq<u64>, i: int, k: int) -> int {
    b.full_level() + b.refill_rate * (times[k] - times[i]) - (k - i + 1) * MICROS
}

/// The bucket of a sender that keeps to rate and burst, after its first
/// `k` arrivals: it is well formed, was last refilled at the latest
/// arrival, and holds a token for the next one.
pub proof fn lemma_arrivals(b: TokenBucket, times: Seq<u64>, k: nat)
    requires
        b.wf(),
        b.level == b.full_level(),
        conforming(times, b.capacity, b.refill_rate),
        k <= times.len(),
    ensures
        after_arrivals(b, times, k).wf(),
        after_arrivals(b, times, k).capacity == b.capacity,
        after_arrivals(b, times, k).refill_rate == b.refill_rate,
        k > 0 ==> after_arrivals(b, times, k).last == times[k - 1],
        k > 0 ==> exists|i: int|
            0 <= i < k && after_arrivals(b, times, k).level >= #[trigger] run_floor(
                b,
                times,
                i,
                k - 1,
            ),
        k < times.len() ==> admitted(b, times, k),
    decreases k,
{
    let cur = after_arrivals(b, times, k);
    if k == 0 {
        if times.len() > 0 {
            assert((0 - 0 + 1) * MICROS <= b.capacity * MICROS + b.refill_rate * (times[0]
                - times[0]));
            assert(b.elapsed(times[0]) * b.refill_rate >= 0) by (nonlinear_arith)
                requires
                    b.elapsed(times[0]) >= 0,
                    b.refill_rate >= 0,
            ;
        }
    } else {
        let prev = after_arrivals(b, times, (k - 1) as nat);
        lemma_arrivals(b, times, (k - 1) as nat);
        let t = times[k - 1];
        assert(admitted(b, times, (k - 1) as nat));
        assert(cur == prev.after_consume(t, 1));
        assert(cur.level == prev.level_at(t) - MICROS);
        // A witness for the run that bounds the level after arrival k - 1.
        let w: int = if prev.level_at(t) == prev.full_level() {
            k - 1
        } else {
            let i0 = choose|i: int|
                0 <= i < k - 1 && prev.level >= #[trigger] run_floor(b, times, i, k - 2);
            i0
        };
        if prev.level_at(t) == prev.full_level() {
            assert(run_floor(b, times, k - 1, k - 1) == b.full_level() - MICROS);
        } else {
            assert(k - 1 > 0);
            assert(prev.last == times[k - 2]);
            assert(times[k - 2] <= times[k - 1]);
            assert(prev.level_at(t) == prev.level + (t - times[k - 2]) * b.refill_rate);
            assert(run_floor(b, times, w, k - 1) == run_floor(b, times, w, k - 2) + b.refill_rate
                * (t - times[k - 2]) - MICROS) by (nonlinear_arith)
                requires
                    run_floor(b, times, w, k - 1) == b.full_level() + b.refill_rate * (t
                        - times[w]) - (k - 1 - w + 1) * MICROS,
                    run_floor(b, times, w, k - 2) == b.full_level() + b.refill_rate * (times[k
                        - 2] - times[w]) - (k - 2 - w + 1) * MICROS,
            ;
            assert((t - times[k - 2]) * b.refill_rate == b.refill_rate * (t - times[k - 2]))
                by (nonlinear_arith);
        }
        assert(0 <= w < k && cur.level >= run_floor(b, times, w, k - 1));
        if k < times.len() {
            let next = times[k as int];
            assert(times[k - 1] <= next);
            assert(cur.last == times[k - 1]);
            assert((k - w + 1) * MICROS <= b.capacity * MICROS + b.refill_rate * (times[k as int]
                - times[w]));
            assert(run_floor(b, times, w, k - 1) + b.refill_rate * (next - times[k - 1])
                == run_floor(b, times, w, k as int) + MICROS) by (nonlinear_arith)
                requires
                    run_floor(b, times, w, k - 1) == b.full_level() + b.refill_rate * (times[k
                        - 1] - times[w]) - (k - 1 - w + 1) * MICROS,
                    run_floor(b, times, w, k as int) == b.full_level() + b.refill_rate * (next
                        - times[w]) - (k - w + 1) * MICROS,
            ;
            assert(run_floor(b, times, w, k as int) >= 0);
            assert((next - times[k - 1]) * b.refill_rate == b.refill_rate * (next - times[k
                - 1])) by (nonlinear_arith);
            assert((0 + 1) * MICROS <= b.capacity * MICROS + b.refill_rate * (times[k as int]
                - times[k as int]));
            assert(cur.full_level() >= MICROS);
            assert(cur.level_at(next) >= MICROS);
        }
    }
}

/// What a bucket holds at a later time follows from what it holds at an
/// earlier one.
pub proof fn lemma_level_over_time(b: TokenBucket, earlier: u64, later: u64)
    requires
        b.wf(),
        b.last <= earlier <= later,
    ensures
        b.level_at(later) == if b.level_at(earlier) + (later - earlier) * b.refill_rate
            > b.full_level() {
            b.full_level()
        } else {
            b.level_at(earlier) + (later - earlier) * b.refill_rate
        },
        0 <= b.level_at(earlier) <= b.level_at(later) <= b.full_level(),
{
    let r = b.refill_rate as int;
    assert((later - b.last) * r == (earlier - b.last) * r + (later - earlier) * r)
        by (nonlinear_arith);
    assert((earlier - b.last) * r >= 0) by (nonlinear_arith)
        requires
            earlier - b.last >= 0,
            r >= 0,
    ;
    assert((later - earlier) * r >= 0) by (nonlinear_arith)
        requires
            later - earlier >= 0,
            r >= 0,
    ;
}

/// Taking a token leaves no more in the bucket, at any later time, than
/// leaving it there.
pub proof fn lemma_consume_lowers(b: TokenBucket, at: u64, later: u64)
    requires
        b.wf(),
        b.last <= at <= later,
    ensures
        b.after_consume(at, 1).level_at(later) <= b.level_at(later),
        b.after_consume(at, 1).wf(),
{
    law_level_stays_in_range(b, at, 1);
    lemma_level_over_time(b, at, later);
    let after = b.after_consume(at, 1);
    assert(after.elapsed(later) == later - at);
}

/// Of two buckets of the same kind, the one that holds at least as much
/// when both are asked for a token holds at least as much afterwards.
pub proof fn lemma_consume_keeps_order(a: TokenBucket, b: TokenBucket, at: u64, later: u64)
    requires
        a.wf(),
        b.wf(),
        a.capacity == b.capacity,
        a.refill_rate == b.refill_rate,
        a.level_at(at) >= b.level_at(at),
        b.can_consume(at, 1),
        at <= later,
    ensures
        a.can_consume(at, 1),
        a.after_consume(at, 1).level_at(later) >= b.after_consume(at, 1).level_at(later),
{
    law_level_stays_in_range(a, at, 1);
    law_level_stays_in_range(b, at, 1);
    let a2 = a.after_consume(at, 1);
    let b2 = b.after_consume(at, 1);
    assert(a2.elapsed(later) == later - at);
    assert(b2.elapsed(later) == later - at);
    assert(a2.level >= b2.level);
}

/// A full bucket holds its capacity at every time.
pub proof fn lemma_full_stays_full(b: TokenBucket, now: u64)
    requires
        b.wf(),
        b.level == b.full_level(),
    ensures
        b.level_at(now) == b.full_level(),
{
    assert(b.elapsed(now) * b.refill_rate >= 0) by (nonlinear_arith)
        requires
            b.elapsed(now) >= 0,
            b.refill_rate >= 0,
    ;
}

/// A bucket never holds more than its capacity.
pub proof fn lemma_level_is_capped(b: TokenBucket, now: u64)
    requires
        b.wf(),
    ensures
        0 <= b.level_at(now) <= b.full_level(),
{
    assert(b.elapsed(now) * b.refill_rate >= 0) by (nonlinear_arith)
        requires
            b.elapsed(now) >= 0,
            b.refill_rate >= 0,
    ;
}

/// A sender that starts with a full bucket and keeps to the bucket's rate
/// and burst is never refused a token.
pub proof fn law_conforming_sender_is_never_limited(b: TokenBucket, times: Seq<u64>)
    requires
        b.wf(),
        b.level == b.full_level(),
        conforming(times, b.capacity, b.refill_rate),
    ensures
        forall|k: nat| k < times.len() ==> admitted(b, times, k),
{
    assert forall|k: nat| k < times.len() implies admitted(b, times, k) by {
        lemma_arrivals(b, times, k);
    }
}

/// Every attempt leaves the level between zero and the capacity.
pub proof fn law_level_stays_in_range(b: TokenBucket, now: u64, amount: u32)
    requires
        b.wf(),
    ensures
        0 <= b.after_consume(now, amount).level <= b.full_level(),
        b.after_consume(now, amount).wf(),
        b.after_consume(now, amount).full_level() == b.full_level(),
{
    assert(b.elapsed(now) * b.refill_rate >= 0) by (nonlinear_arith)
        requires
            b.elapsed(now) >= 0,
            b.refill_rate >= 0,
    ;
    assert(amount * MICROS >= 0) by (nonlinear_arith)
        requires
            amount >= 0,
            MICROS == 1_000_000,
    ;
}

} // verus!
