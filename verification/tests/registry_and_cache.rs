use gossipsub_score_sim::config::{
    ValidatorConfig, MAX_DEDUPE_SIZE, MAX_PEERS, OFFENCE_HARD_CAP, OFFENCE_SCALE,
    QUARANTINE_THRESHOLD, SCORE_UNIT, TOKEN_BUCKET_CAPACITY, TOKEN_REFILL_RATE,
};
use gossipsub_score_sim::dedupe::DedupeCache;
use gossipsub_score_sim::peers::{copy_bytes, PeerId, PeerRegistry, PeerState};
use gossipsub_score_sim::scoring::{add_to_score, escalate};

fn pid(n: u8) -> PeerId {
    PeerId::from_slice(&[n, n, n])
}

fn key(n: u8) -> [u8; 32] {
    [n; 32]
}

fn fresh() -> PeerState {
    PeerState::new(&ValidatorConfig::new(16384))
}

#[test]
fn defaults_are_the_documented_ones() {
    let cfg = ValidatorConfig::new(4096);
    assert_eq!(cfg.max_message_bytes, 4096);
    assert_eq!(cfg.token_bucket_capacity, 100);
    assert_eq!(cfg.token_refill_rate, 50);
    assert_eq!(cfg.quarantine_threshold, -90 * SCORE_UNIT);
    assert_eq!(cfg.max_peers, 1000);
    assert_eq!(cfg.max_dedupe, 10_000);
    assert_eq!(cfg.offence_hard_cap, 4);
    assert_eq!(cfg.offence_scale, 500);
    assert_eq!(
        (TOKEN_BUCKET_CAPACITY, TOKEN_REFILL_RATE, QUARANTINE_THRESHOLD, MAX_PEERS),
        (100, 50, -90_000, 1000)
    );
    assert_eq!((MAX_DEDUPE_SIZE, OFFENCE_HARD_CAP, OFFENCE_SCALE), (10_000, 4, 500));
}

#[test]
fn peer_id_round_trips_its_bytes() {
    let bytes = vec![0x12, 0x20, 1, 2, 3];
    let id = PeerId::from_bytes(bytes.clone());
    assert_eq!(id.as_bytes(), &bytes[..]);
    assert_eq!(id.to_bytes(), bytes);
    assert_eq!(id.clone(), id);
    assert_eq!(copy_bytes(&bytes), bytes);
}

#[test]
fn peer_id_same_is_byte_equality() {
    assert!(pid(1).same(&pid(1)));
    assert!(!pid(1).same(&pid(2)));
    assert!(!PeerId::from_bytes(vec![1, 1]).same(&pid(1)));
    assert!(!pid(1).same(&PeerId::from_bytes(vec![1, 1, 1, 1])));
    assert!(PeerId::from_bytes(vec![]).same(&PeerId::from_slice(&[])));
}

#[test]
fn fresh_state_is_the_default_state() {
    let s = fresh();
    assert_eq!(s.score, 0);
    assert_eq!(s.bucket.level, 100_000_000);
    assert_eq!(s.last_seq, None);
    assert!(!s.quarantined);
    assert_eq!(s.offences, 0);
}

#[test]
fn escalation_follows_the_formula() {
    // base * (1 + 0.5 * (n - 1))
    assert_eq!(escalate(-60_000, 1, 500), -60_000);
    assert_eq!(escalate(-60_000, 2, 500), -90_000);
    assert_eq!(escalate(-60_000, 3, 500), -120_000);
    assert_eq!(escalate(-5_000, 2, 500), -7_500);
    assert_eq!(escalate(-30_000, 7, 500), -120_000);
    // Another scale: a quarter more per offence.
    assert_eq!(escalate(-80_000, 3, 250), -120_000);
    // No growth.
    assert_eq!(escalate(-80_000, 50, 0), -80_000);
    // Rounded toward zero.
    assert_eq!(escalate(-1, 2, 500), -1);
    assert_eq!(escalate(-3, 2, 500), -4);
    assert_eq!(escalate(3, 2, 500), 4);
    // Offence number zero is not scaled.
    assert_eq!(escalate(-80_000, 0, 500), -80_000);
}

#[test]
fn escalation_is_monotonic_in_the_offence_number() {
    for base in [-1i64, -5_000, -80_000, i64::MIN] {
        let mut last = 0i64;
        for n in 1..200u32 {
            let d = escalate(base, n, 500);
            assert!(d <= last, "base {base}, offence {n}");
            last = d;
        }
    }
}

#[test]
fn escalation_stays_within_range() {
    assert_eq!(escalate(i64::MIN, u32::MAX, u32::MAX), i64::MIN);
    assert_eq!(escalate(i64::MAX, u32::MAX, u32::MAX), i64::MAX);
    assert_eq!(escalate(i64::MIN, 1, 500), i64::MIN);
    assert_eq!(add_to_score(i64::MIN, -1), i64::MIN);
    assert_eq!(add_to_score(i64::MAX, 1), i64::MAX);
    assert_eq!(add_to_score(-5, 3), -2);
}

#[test]
fn record_offence_updates_count_score_and_flag() {
    let cfg = ValidatorConfig::new(16384);
    let mut s = PeerState::new(&cfg);
    assert_eq!(s.record_offence(-60_000, &cfg), -60_000);
    assert_eq!((s.score, s.offences, s.quarantined), (-60_000, 1, false));
    assert_eq!(s.record_offence(-60_000, &cfg), -90_000);
    assert_eq!((s.score, s.offences, s.quarantined), (-150_000, 2, true));
}

#[test]
fn registry_looks_up_admits_and_evicts_in_order() {
    let mut r = PeerRegistry::new(3, fresh());
    assert_eq!(r.len(), 0);
    assert_eq!(r.find(&pid(1)), None);
    assert_eq!(r.ensure(&pid(1)), 0);
    assert_eq!(r.ensure(&pid(2)), 1);
    assert_eq!(r.ensure(&pid(1)), 0);
    assert_eq!(r.ensure(&pid(3)), 2);
    assert_eq!(r.len(), 3);
    // Full: the oldest leaves, the others move up.
    assert_eq!(r.ensure(&pid(4)), 2);
    assert_eq!(r.len(), 3);
    assert_eq!(r.find(&pid(1)), None);
    assert_eq!(r.find(&pid(2)), Some(0));
    assert_eq!(r.find(&pid(4)), Some(2));
    assert_eq!(r.get(&pid(1)), None);
    assert_eq!(r.get(&pid(2)), Some(fresh()));
}

#[test]
fn registry_keeps_states_by_peer() {
    let mut r = PeerRegistry::new(2, fresh());
    let i = r.ensure(&pid(1));
    let mut s = r.state_at(i);
    s.score = -5;
    s.quarantined = true;
    r.set_state(i, s);
    let _ = r.ensure(&pid(2));
    assert_eq!(r.get(&pid(1)), Some(s));
    assert_eq!(r.get(&pid(2)), Some(fresh()));
    assert_eq!(r.quarantined(), 1);
    let all = r.snapshot();
    assert_eq!(all, vec![(pid(1), s), (pid(2), fresh())]);
}

#[test]
fn registry_without_capacity_holds_one_peer() {
    let mut r = PeerRegistry::new(0, fresh());
    assert_eq!(r.ensure(&pid(1)), 0);
    assert_eq!(r.ensure(&pid(2)), 0);
    assert_eq!(r.len(), 1);
    assert_eq!(r.find(&pid(2)), Some(0));
}

#[test]
fn cache_is_first_in_first_out() {
    let mut c = DedupeCache::new(3);
    assert!(!c.contains(&key(1)));
    for n in 1..=3 {
        c.insert(key(n));
    }
    assert_eq!(c.len(), 3);
    assert!(c.contains(&key(1)) && c.contains(&key(2)) && c.contains(&key(3)));
    c.insert(key(4));
    assert_eq!(c.len(), 3);
    assert!(!c.contains(&key(1)));
    assert!(c.contains(&key(2)) && c.contains(&key(3)) && c.contains(&key(4)));
}

#[test]
fn cache_without_capacity_holds_nothing() {
    let mut c = DedupeCache::new(0);
    c.insert(key(1));
    assert_eq!(c.len(), 0);
    assert!(!c.contains(&key(1)));
}

#[test]
fn cache_tells_keys_apart_by_every_byte() {
    let mut c = DedupeCache::new(4);
    let mut k = key(7);
    c.insert(k);
    k[31] = 8;
    assert!(!c.contains(&k));
    k[31] = 7;
    assert!(c.contains(&k));
}

#[test]
fn cache_holds_no_key_twice() {
    let mut c = DedupeCache::new(3);
    c.insert(key(1));
    c.insert(key(1));
    assert_eq!(c.len(), 1);
    c.insert(key(2));
    c.insert(key(3));
    // Inserting a key that is there does not renew it: it is still the oldest.
    c.insert(key(1));
    c.insert(key(4));
    assert!(!c.contains(&key(1)));
    assert!(c.contains(&key(2)) && c.contains(&key(3)) && c.contains(&key(4)));
}

#[test]
fn cache_keeps_apart_keys_with_the_same_first_bytes() {
    let mut a = key(5);
    let mut b = key(5);
    let mut c = key(5);
    a[8] = 1;
    b[8] = 2;
    c[31] = 3;
    let mut cache = DedupeCache::new(2);
    cache.insert(a);
    assert!(cache.contains(&a) && !cache.contains(&b) && !cache.contains(&c));
    cache.insert(b);
    assert!(cache.contains(&a) && cache.contains(&b) && !cache.contains(&c));
    cache.insert(c);
    assert!(!cache.contains(&a) && cache.contains(&b) && cache.contains(&c));
    cache.insert(a);
    assert!(cache.contains(&a) && !cache.contains(&b) && cache.contains(&c));
    assert_eq!(cache.len(), 2);
}

#[test]
fn cache_survives_many_rounds_of_eviction() {
    let mut cache = DedupeCache::new(100);
    for round in 0..2000u32 {
        let mut k = [0u8; 32];
        k[..4].copy_from_slice(&(round % 7).to_le_bytes());
        k[28..].copy_from_slice(&round.to_le_bytes());
        assert!(!cache.contains(&k));
        cache.insert(k);
        assert!(cache.contains(&k));
        assert!(cache.len() <= 100);
        if round >= 100 {
            let mut gone = [0u8; 32];
            gone[..4].copy_from_slice(&((round - 100) % 7).to_le_bytes());
            gone[28..].copy_from_slice(&(round - 100).to_le_bytes());
            assert!(!cache.contains(&gone));
        }
    }
    assert_eq!(cache.len(), 100);
}

#[test]
fn record_offence_never_clears_the_flag() {
    let cfg = ValidatorConfig::new(16384);
    let mut s = PeerState::new(&cfg);
    s.record_offence(-90_000, &cfg);
    assert!(s.quarantined);
    assert_eq!(s.record_offence(1_000_000, &cfg), 1_500_000);
    assert_eq!((s.score, s.offences, s.quarantined), (1_410_000, 2, true));
}
