use gossipsub_score_sim::bucket::{TokenBucket, MICROS};
use gossipsub_score_sim::clock::{reading, Clock};

#[test]
fn new_bucket_is_full() {
    let b = TokenBucket::new(100, 50);
    assert_eq!(b.level, 100 * MICROS);
    assert_eq!(b.tokens(), 100);
    assert_eq!(b.last, 0);
}

#[test]
fn burst_up_to_capacity_passes_then_limits() {
    let mut b = TokenBucket::new(100, 50);
    for _ in 0..100 {
        assert!(b.try_consume(5_000, 1));
    }
    assert!(!b.try_consume(5_000, 1));
    assert_eq!(b.level, 0);
}

#[test]
fn refill_is_rate_times_elapsed() {
    let mut b = TokenBucket::new(100, 50);
    assert!(b.try_consume(0, 100));
    assert_eq!(b.level, 0);
    // 10 ms at 50 tokens per second is half a token.
    assert!(!b.try_consume(10_000, 1));
    assert_eq!(b.level, 500_000);
    // Another 10 ms makes a whole token.
    assert!(b.try_consume(20_000, 1));
    assert_eq!(b.level, 0);
    // One second refills 50 tokens.
    assert!(b.try_consume(1_020_000, 50));
    assert!(!b.try_consume(1_020_000, 1));
}

#[test]
fn refill_stops_at_capacity() {
    let mut b = TokenBucket::new(3, 1000);
    assert!(b.try_consume(0, 3));
    assert!(b.try_consume(u64::MAX, 1));
    assert_eq!(b.level, 2 * MICROS);
    assert!(!b.try_consume(u64::MAX, 3));
}

#[test]
fn failed_attempt_takes_nothing_but_moves_the_clock() {
    let mut b = TokenBucket::new(2, 1);
    assert!(b.try_consume(100, 2));
    assert!(!b.try_consume(200, 1));
    assert_eq!(b.level, 100);
    assert_eq!(b.last, 200);
}

#[test]
fn clock_going_back_adds_nothing_and_takes_nothing() {
    let mut b = TokenBucket::new(10, 50);
    assert!(b.try_consume(1_000_000, 10));
    assert!(!b.try_consume(500_000, 1));
    assert_eq!(b.level, 0);
    assert_eq!(b.last, 500_000);
}

#[test]
fn sender_within_rate_and_burst_is_never_limited() {
    // A burst of 100 at once, then one message every 20 ms for ten seconds.
    let mut b = TokenBucket::new(100, 50);
    let mut now = 1_000u64;
    for _ in 0..100 {
        assert!(b.try_consume(now, 1));
    }
    for _ in 0..500 {
        now += 20_000;
        assert!(b.try_consume(now, 1));
    }
}

#[test]
fn level_stays_within_capacity() {
    let mut b = TokenBucket::new(5, 7);
    let times = [0u64, 3, 1_000_000, 999, 5_000_000, u64::MAX, 0];
    for (i, t) in times.iter().enumerate() {
        let _ = b.try_consume(*t, (i % 3) as u32);
        assert!(b.level <= 5 * MICROS);
    }
}

#[test]
fn zero_capacity_never_grants_a_token() {
    let mut b = TokenBucket::new(0, 50);
    assert!(!b.try_consume(10_000_000, 1));
    assert!(b.try_consume(10_000_000, 0));
}

#[test]
fn clock_reading_is_the_count_until_it_no_longer_fits() {
    assert_eq!(reading(0), 0);
    assert_eq!(reading(1_000_000), 1_000_000);
    assert_eq!(reading(u64::MAX as u128), u64::MAX);
    assert_eq!(reading(u64::MAX as u128 + 1), u64::MAX);
    assert_eq!(reading(u128::MAX), u64::MAX);
}

#[test]
fn clock_counts_from_its_making() {
    let clock = Clock::new();
    let first = clock.now_micros();
    // A clock that was just made shows well under a minute.
    assert!(first < 60_000_000);
    // Time passes while the clock is read.
    let mut latest = first;
    let mut reads = 0u64;
    while latest <= first && reads < 1_000_000_000 {
        latest = clock.now_micros();
        reads += 1;
    }
    assert!(latest > first);
}
