use gossipsub_score_sim::codec::{encode, WireMessage};
use gossipsub_score_sim::config::SCORE_UNIT;
use gossipsub_score_sim::decision::{Acceptance, Reason};
use gossipsub_score_sim::peers::PeerId;
use gossipsub_score_sim::validator::{Validator, ValidatorConfig};

fn peer(n: u8) -> PeerId {
    PeerId::from_bytes(vec![0x12, 0x20, n, n, n, n])
}

fn validator() -> Validator {
    Validator::new(ValidatorConfig::new(16384))
}

fn good(seq: u64, payload: Vec<u8>) -> Vec<u8> {
    encode(&WireMessage::Good { seq, payload })
}

fn bad() -> Vec<u8> {
    encode(&WireMessage::Bad)
}

#[test]
fn oversized_messages_are_rejected() {
    for payload_len in [16385usize, 16386, 20000, 39999] {
        let mut v = validator();
        let bytes = good(1, vec![0u8; payload_len]);
        let decision = v.validate(&peer(1), Some(&peer(2)), &bytes);
        assert_eq!(decision.acceptance, Acceptance::Reject);
        assert_eq!(decision.reason.as_str(), "oversize");
    }
}

#[test]
fn empty_payloads_rejected() {
    for seq in [1u64, 2, 500, 999] {
        let mut v = validator();
        let bytes = good(seq, vec![]);
        let p = peer(3);
        let decision = v.validate(&p, Some(&p), &bytes);
        assert_eq!(decision.acceptance, Acceptance::Reject);
        assert_eq!(decision.reason.as_str(), "empty_payload");
    }
}

#[test]
fn decode_errors_make_reject() {
    let mut v = validator();
    let bytes = vec![0u8; 10];
    let decision = v.validate(&peer(1), Some(&peer(2)), &bytes);
    assert_eq!(decision.acceptance, Acceptance::Reject);
    assert_eq!(decision.reason.as_str(), "decode_error");
}

#[test]
fn replay_detection() {
    for seq in [1u64, 7, 999] {
        let mut v = validator();
        let p = peer(4);

        let decision1 = v.validate(&p, Some(&p), &good(seq + 10, vec![1u8; 100]));
        assert_eq!(decision1.acceptance, Acceptance::Accept);

        let decision2 = v.validate(&p, Some(&p), &good(seq, vec![2u8; 100]));
        assert_eq!(decision2.acceptance, Acceptance::Ignore);
        assert_eq!(decision2.reason.as_str(), "replay_or_old_seq");
    }
}

#[test]
fn scenario_oversize() {
    let mut v = validator();
    let (forwarder, author) = (peer(1), peer(2));
    let bytes = good(1, vec![0u8; 16385]);
    let d = v.validate_at(0, &forwarder, Some(&author), &bytes);
    assert_eq!((d.acceptance, d.reason), (Acceptance::Reject, Reason::Oversize));
    assert_eq!(d.score_delta, -60 * SCORE_UNIT);
    assert_eq!(v.get_peer_score(&author), -60 * SCORE_UNIT);
    assert_eq!(v.get_offence_count(&author), 1);
    // The forwarder is not blamed, and the size gate comes before the rate limiter.
    assert_eq!(v.get_peer_score(&forwarder), 0);
    assert_eq!(v.get_offence_count(&forwarder), 0);
    assert_eq!(v.dump_peer_states().len(), 1);
}

#[test]
fn size_gate_is_on_the_encoded_length() {
    let mut v = validator();
    let p = peer(1);
    // 20 bytes of header and 16364 of payload make the longest message allowed.
    let longest = good(1, vec![7u8; 16364]);
    assert_eq!(longest.len(), 16384);
    assert_eq!(v.validate_at(0, &p, None, &longest).acceptance, Acceptance::Accept);
    let over = good(2, vec![7u8; 16365]);
    assert_eq!(v.validate_at(0, &p, None, &over).reason, Reason::Oversize);
}

#[test]
fn scenario_replay() {
    let mut v = validator();
    let (forwarder, author) = (peer(1), peer(2));
    let d1 = v.validate_at(0, &forwarder, Some(&author), &good(20, vec![1, 2, 3]));
    assert_eq!((d1.acceptance, d1.reason.as_str()), (Acceptance::Accept, "ok"));
    let d2 = v.validate_at(0, &forwarder, Some(&author), &good(10, vec![4, 5, 6]));
    assert_eq!((d2.acceptance, d2.reason.as_str()), (Acceptance::Ignore, "replay_or_old_seq"));
    assert_eq!(d2.score_delta, 0);
    assert_eq!(v.get_peer_last_seq(&author), Some(20));
    assert_eq!(v.get_peer_last_seq(&forwarder), None);
    assert_eq!(v.get_peer_score(&author), 0);
}

#[test]
fn equal_sequence_number_is_a_replay() {
    let mut v = validator();
    let p = peer(1);
    assert_eq!(v.validate_at(0, &p, None, &good(5, vec![1])).acceptance, Acceptance::Accept);
    assert_eq!(v.validate_at(0, &p, None, &good(5, vec![2])).reason, Reason::ReplayOrOldSeq);
    assert_eq!(v.validate_at(0, &p, None, &good(6, vec![3])).acceptance, Acceptance::Accept);
    assert_eq!(v.get_peer_last_seq(&p), Some(6));
}

#[test]
fn sequence_number_zero_is_never_news() {
    let mut v = validator();
    let p = peer(1);
    let d = v.validate_at(0, &p, None, &good(0, vec![1]));
    assert_eq!((d.acceptance, d.reason), (Acceptance::Ignore, Reason::ReplayOrOldSeq));
    assert_eq!(v.get_peer_last_seq(&p), None);
}

#[test]
fn scenario_malicious_escalation() {
    // A `Bad` message has one encoding, so a validator that remembers it
    // hears it once. Without a dedupe cache every copy counts.
    let cfg = ValidatorConfig { max_dedupe: 0, ..ValidatorConfig::new(16384) };
    let mut v = Validator::new(cfg);
    let (forwarder, author) = (peer(1), peer(2));
    let totals = [-80, -200, -360, -560, -800];
    for (i, total) in totals.iter().enumerate() {
        let d = v.validate_at(0, &forwarder, Some(&author), &bad());
        assert_eq!((d.acceptance, d.reason.as_str()), (Acceptance::Reject, "malicious_payload"));
        assert_eq!(d.score_delta, -80 * SCORE_UNIT);
        assert_eq!(v.get_peer_score(&author), total * SCORE_UNIT);
        assert_eq!(v.get_offence_count(&author), i as u32 + 1);
        assert_eq!(v.is_quarantined(&author), i >= 1);
    }
    assert_eq!(v.get_peer_score(&forwarder), 0);
    assert!(!v.is_quarantined(&forwarder));
}

#[test]
fn repeated_bad_message_is_a_duplicate() {
    let mut v = validator();
    let (forwarder, author) = (peer(1), peer(2));
    assert_eq!(v.validate_at(0, &forwarder, Some(&author), &bad()).reason, Reason::MaliciousPayload);
    assert_eq!(v.validate_at(0, &forwarder, Some(&author), &bad()).reason, Reason::Duplicate);
    assert_eq!(v.get_peer_score(&author), -80 * SCORE_UNIT);
    // A `Bad` message with a byte after it is no message.
    let mut longer = bad();
    longer.push(7);
    assert_eq!(v.validate_at(0, &forwarder, Some(&author), &longer).reason, Reason::DecodeError);
}

#[test]
fn quarantine_outlasts_a_reward() {
    let mut v = validator();
    let p = peer(1);
    assert_eq!(v.record_offence_and_update(&p, -100 * SCORE_UNIT), -100 * SCORE_UNIT);
    assert!(v.is_quarantined(&p));
    assert_eq!(v.record_offence_and_update(&p, 200 * SCORE_UNIT), 300 * SCORE_UNIT);
    assert_eq!(v.get_peer_score(&p), 200 * SCORE_UNIT);
    assert_eq!(v.get_offence_count(&p), 2);
    assert!(v.is_quarantined(&p));
    assert_eq!(v.get_quarantined_count(), 1);
}

#[test]
fn reward_alone_does_not_quarantine() {
    let mut v = validator();
    let p = peer(1);
    assert_eq!(v.record_offence_and_update(&p, 10 * SCORE_UNIT), 10 * SCORE_UNIT);
    assert!(!v.is_quarantined(&p));
    assert_eq!(v.get_app_score_option(&p), Some(10 * SCORE_UNIT));
}

#[test]
fn escalated_deltas_grow_by_half_a_base_penalty() {
    let mut v = validator();
    let p = peer(9);
    let deltas: Vec<i64> =
        (0..5).map(|_| v.record_offence_and_update(&p, -80 * SCORE_UNIT)).collect();
    assert_eq!(deltas, vec![-80_000, -120_000, -160_000, -200_000, -240_000]);
    assert_eq!(v.get_peer_score(&p), -800 * SCORE_UNIT);
    let q = peer(8);
    let small: Vec<i64> = (0..3).map(|_| v.record_offence_and_update(&q, -5 * SCORE_UNIT)).collect();
    assert_eq!(small, vec![-5_000, -7_500, -10_000]);
}

#[test]
fn hard_cap_quarantines_whatever_the_score() {
    let mut v = validator();
    let p = peer(1);
    for i in 1..=5u32 {
        v.record_offence_and_update(&p, -1);
        assert_eq!(v.is_quarantined(&p), i > 4);
    }
    assert!(v.get_peer_score(&p) > -90 * SCORE_UNIT);
}

#[test]
fn scenario_rate_limit() {
    let mut v = validator();
    let p = peer(1);
    for seq in 1..=100u64 {
        let d = v.validate_at(50_000, &p, Some(&p), &good(seq, vec![seq as u8, 1]));
        assert_eq!(d.acceptance, Acceptance::Accept, "message {seq}");
    }
    let d = v.validate_at(50_000, &p, Some(&p), &good(101, vec![101, 1]));
    assert_eq!((d.acceptance, d.reason.as_str()), (Acceptance::Reject, "rate_limited"));
    assert_eq!(d.score_delta, -5 * SCORE_UNIT);
    assert_eq!(v.get_peer_score(&p), -5 * SCORE_UNIT);
    // The refused message was not looked at.
    assert_eq!(v.get_peer_last_seq(&p), Some(100));
    let d = v.validate_at(1_050_000, &p, Some(&p), &good(102, vec![102, 1]));
    assert_eq!((d.acceptance, d.reason.as_str()), (Acceptance::Accept, "ok"));
}

#[test]
fn rate_limit_blames_the_forwarder_not_the_author() {
    let cfg = ValidatorConfig { token_bucket_capacity: 1, ..ValidatorConfig::new(16384) };
    let mut v = Validator::new(cfg);
    let (forwarder, author) = (peer(1), peer(2));
    assert_eq!(
        v.validate_at(0, &forwarder, Some(&author), &good(1, vec![1])).acceptance,
        Acceptance::Accept
    );
    let d = v.validate_at(0, &forwarder, Some(&author), &good(2, vec![2]));
    assert_eq!(d.reason, Reason::RateLimited);
    assert_eq!(v.get_peer_score(&forwarder), -5 * SCORE_UNIT);
    assert_eq!(v.get_peer_score(&author), 0);
}

#[test]
fn token_is_taken_even_when_the_message_is_refused() {
    let cfg = ValidatorConfig { token_bucket_capacity: 2, ..ValidatorConfig::new(16384) };
    let mut v = Validator::new(cfg);
    let (forwarder, author) = (peer(1), peer(2));
    assert_eq!(v.validate_at(0, &forwarder, Some(&author), &[9u8; 3]).reason, Reason::DecodeError);
    assert_eq!(v.validate_at(0, &forwarder, Some(&author), &[9u8; 4]).reason, Reason::DecodeError);
    assert_eq!(
        v.validate_at(0, &forwarder, Some(&author), &good(1, vec![1])).reason,
        Reason::RateLimited
    );
}

#[test]
fn oversize_takes_no_token() {
    let cfg = ValidatorConfig { token_bucket_capacity: 1, ..ValidatorConfig::new(64) };
    let mut v = Validator::new(cfg);
    let (forwarder, author) = (peer(1), peer(2));
    let d = v.validate_at(0, &forwarder, Some(&author), &good(1, vec![0; 100]));
    assert_eq!(d.reason, Reason::Oversize);
    let d = v.validate_at(0, &forwarder, Some(&peer(3)), &good(1, vec![1]));
    assert_eq!(d.acceptance, Acceptance::Accept);
}

#[test]
fn scenario_dedupe() {
    let mut v = validator();
    let p = peer(1);
    let bytes = good(1, vec![1, 2, 3]);
    let d1 = v.validate_at(0, &p, Some(&p), &bytes);
    assert_eq!((d1.acceptance, d1.reason.as_str()), (Acceptance::Accept, "ok"));
    let d2 = v.validate_at(0, &p, Some(&p), &bytes);
    assert_eq!((d2.acceptance, d2.reason.as_str()), (Acceptance::Ignore, "duplicate"));
    assert_eq!(d2.score_delta, 0);
    // From another forwarder and author it is a duplicate all the same.
    let d3 = v.validate_at(0, &peer(2), Some(&peer(3)), &bytes);
    assert_eq!((d3.acceptance, d3.reason), (Acceptance::Ignore, Reason::Duplicate));
}

#[test]
fn refused_content_is_remembered_too() {
    let mut v = validator();
    let (forwarder, author) = (peer(1), peer(2));
    let empty = good(3, vec![]);
    assert_eq!(v.validate_at(0, &forwarder, Some(&author), &empty).reason, Reason::EmptyPayload);
    assert_eq!(v.validate_at(0, &forwarder, Some(&author), &empty).reason, Reason::Duplicate);
    assert_eq!(v.get_offence_count(&author), 1);
}

#[test]
fn undecodable_bytes_are_not_remembered() {
    let mut v = validator();
    let (forwarder, author) = (peer(1), peer(2));
    let junk = [0xffu8; 12];
    assert_eq!(v.validate_at(0, &forwarder, Some(&author), &junk).reason, Reason::DecodeError);
    assert_eq!(v.validate_at(0, &forwarder, Some(&author), &junk).reason, Reason::DecodeError);
    assert_eq!(v.get_peer_score(&author), -75 * SCORE_UNIT);
}

#[test]
fn scenario_forwarder_isolation() {
    let mut v = validator();
    let f = peer(1);
    let mut seen = Vec::new();
    for i in 0..5u8 {
        let d = v.validate_at(0, &f, None, &good(1, vec![i; 16385]));
        seen.push(d.reason.as_str());
    }
    assert_eq!(
        seen,
        vec![
            "oversize",
            "oversize",
            "forwarder_quarantined",
            "forwarder_quarantined",
            "forwarder_quarantined"
        ]
    );
    assert!(v.is_quarantined(&f));
    assert_eq!(v.get_peer_score(&f), -150 * SCORE_UNIT);
    let before = v.dump_peer_states();
    for bytes in [good(1, vec![1, 2, 3]), good(2, vec![]), bad(), vec![0u8; 10], vec![0u8; 20000]] {
        let d = v.validate_at(9_000_000, &f, Some(&peer(2)), &bytes);
        assert_eq!((d.acceptance, d.reason.as_str()), (Acceptance::Ignore, "forwarder_quarantined"));
        assert_eq!(d.score_delta, 0);
    }
    assert_eq!(v.dump_peer_states(), before);
    // A quarantined author is still heard through another forwarder.
    let d = v.validate_at(0, &peer(3), Some(&f), &good(1, vec![1]));
    assert_eq!(d.acceptance, Acceptance::Accept);
}

#[test]
fn quarantine_is_sticky_across_later_messages() {
    let mut v = validator();
    let (forwarder, author) = (peer(1), peer(2));
    v.record_offence_and_update(&author, -90 * SCORE_UNIT);
    assert!(v.is_quarantined(&author));
    for seq in 1..20u64 {
        let _ = v.validate_at(seq * 1000, &forwarder, Some(&author), &good(seq, vec![seq as u8]));
        let _ = v.validate_at(seq * 1000, &forwarder, Some(&author), &bad());
        let _ = v.validate_at(seq * 1000, &forwarder, Some(&author), &[seq as u8; 3]);
        assert!(v.is_quarantined(&author));
    }
}

#[test]
fn missing_author_falls_back_to_forwarder() {
    let mut v = validator();
    let f = peer(1);
    assert_eq!(v.validate_at(0, &f, None, &good(5, vec![1])).acceptance, Acceptance::Accept);
    assert_eq!(v.get_peer_last_seq(&f), Some(5));
    assert_eq!(v.validate_at(0, &f, None, &bad()).reason, Reason::MaliciousPayload);
    assert_eq!(v.get_peer_score(&f), -80 * SCORE_UNIT);
}

#[test]
fn app_score_appears_with_the_first_penalty() {
    let mut v = validator();
    let (forwarder, author) = (peer(1), peer(2));
    assert_eq!(v.get_app_score_option(&author), None);
    let _ = v.validate_at(0, &forwarder, Some(&author), &good(1, vec![1]));
    assert_eq!(v.get_app_score_option(&author), None);
    assert_eq!(v.get_app_score_option(&forwarder), None);
    let _ = v.validate_at(0, &forwarder, Some(&author), &bad());
    assert_eq!(v.get_app_score_option(&author), Some(-80 * SCORE_UNIT));
    assert_eq!(v.get_app_score_option(&forwarder), None);
}

#[test]
fn registry_evicts_the_oldest_peer_when_full() {
    let cfg = ValidatorConfig { max_peers: 2, ..ValidatorConfig::new(16384) };
    let mut v = Validator::new(cfg);
    v.record_offence_and_update(&peer(1), -10 * SCORE_UNIT);
    v.record_offence_and_update(&peer(2), -20 * SCORE_UNIT);
    // A known peer is looked up without eviction.
    v.record_offence_and_update(&peer(1), -10 * SCORE_UNIT);
    assert_eq!(v.dump_peer_states().len(), 2);
    assert_eq!(v.get_peer_score(&peer(1)), -25 * SCORE_UNIT);
    v.record_offence_and_update(&peer(3), -30 * SCORE_UNIT);
    let ids: Vec<PeerId> = v.dump_peer_states().into_iter().map(|(id, _, _)| id).collect();
    assert_eq!(ids, vec![peer(2), peer(3)]);
    // The evicted peer starts over.
    assert_eq!(v.get_peer_score(&peer(1)), 0);
    assert_eq!(v.get_offence_count(&peer(1)), 0);
    assert_eq!(v.get_app_score_option(&peer(1)), None);
}

#[test]
fn registry_and_cache_stay_within_their_capacities() {
    let cfg = ValidatorConfig { max_peers: 5, max_dedupe: 7, ..ValidatorConfig::new(16384) };
    let mut v = Validator::new(cfg);
    for i in 0..60u8 {
        let _ = v.validate_at(0, &peer(i), Some(&peer(i.wrapping_mul(7))), &good(1, vec![i]));
        assert!(v.dump_peer_states().len() <= 5);
    }
    // Eight distinct messages through a cache of seven: the first has left.
    let mut v = Validator::new(cfg);
    let p = peer(1);
    for seq in 1..=8u64 {
        assert_eq!(v.validate_at(0, &p, None, &good(seq, vec![1])).acceptance, Acceptance::Accept);
    }
    assert_eq!(v.validate_at(0, &p, None, &good(2, vec![1])).reason, Reason::Duplicate);
    assert_eq!(v.validate_at(0, &p, None, &good(1, vec![1])).reason, Reason::ReplayOrOldSeq);
}

#[test]
fn zero_peer_capacity_is_read_as_one() {
    let cfg = ValidatorConfig { max_peers: 0, ..ValidatorConfig::new(16384) };
    let mut v = Validator::new(cfg);
    assert_eq!(v.config().max_peers, 1);
    v.record_offence_and_update(&peer(1), -1000);
    v.record_offence_and_update(&peer(2), -1000);
    assert_eq!(v.dump_peer_states().len(), 1);
    assert_eq!(v.get_peer_score(&peer(2)), -1000);
}

#[test]
fn quarantined_count_and_dump_agree() {
    let mut v = validator();
    assert_eq!(v.get_quarantined_count(), 0);
    v.record_offence_and_update(&peer(1), -90 * SCORE_UNIT);
    v.record_offence_and_update(&peer(2), -89 * SCORE_UNIT);
    v.record_offence_and_update(&peer(3), -200 * SCORE_UNIT);
    assert_eq!(v.get_quarantined_count(), 2);
    assert_eq!(
        v.dump_peer_states(),
        vec![
            (peer(1), -90 * SCORE_UNIT, true),
            (peer(2), -89 * SCORE_UNIT, false),
            (peer(3), -200 * SCORE_UNIT, true)
        ]
    );
}

#[test]
fn threshold_is_inclusive() {
    let mut v = validator();
    v.record_offence_and_update(&peer(1), -90 * SCORE_UNIT + 1);
    assert!(!v.is_quarantined(&peer(1)));
    v.record_offence_and_update(&peer(2), -90 * SCORE_UNIT);
    assert!(v.is_quarantined(&peer(2)));
}

#[test]
fn score_stops_at_the_end_of_its_range() {
    let mut v = validator();
    let p = peer(1);
    assert_eq!(v.record_offence_and_update(&p, i64::MIN), i64::MIN);
    assert_eq!(v.record_offence_and_update(&p, i64::MIN), i64::MIN);
    assert_eq!(v.get_peer_score(&p), i64::MIN);
}

#[test]
fn validate_reads_the_clock() {
    let mut v = validator();
    let p = peer(1);
    let d = v.validate(&p, Some(&p), &good(1, vec![1, 2, 3]));
    assert_eq!((d.acceptance, d.reason.as_str()), (Acceptance::Accept, "ok"));
    let later = v.now_micros();
    assert!(later <= v.now_micros());
}

#[test]
fn reason_codes_are_stable() {
    let codes: Vec<&str> = [
        Reason::ForwarderQuarantined,
        Reason::Oversize,
        Reason::RateLimited,
        Reason::DecodeError,
        Reason::EmptyPayload,
        Reason::Duplicate,
        Reason::ReplayOrOldSeq,
        Reason::MaliciousPayload,
        Reason::Passed,
    ]
    .iter()
    .map(|r| r.as_str())
    .collect();
    assert_eq!(
        codes,
        vec![
            "forwarder_quarantined",
            "oversize",
            "rate_limited",
            "decode_error",
            "empty_payload",
            "duplicate",
            "replay_or_old_seq",
            "malicious_payload",
            "ok"
        ]
    );
}

#[test]
fn last_sequence_number_never_decreases() {
    let mut v = validator();
    let (forwarder, author) = (peer(1), peer(2));
    let mut highest = None;
    for (i, seq) in [5u64, 3, 9, 9, 1, 12, 0, 11, 40].iter().enumerate() {
        let _ = v.validate_at(0, &forwarder, Some(&author), &good(*seq, vec![i as u8, 1]));
        let last = v.get_peer_last_seq(&author);
        assert!(last >= highest);
        highest = last;
    }
    assert_eq!(highest, Some(40));
}

#[test]
fn peer_within_rate_and_burst_is_never_rate_limited() {
    let mut v = validator();
    let (honest, attacker) = (peer(1), peer(2));
    let mut now = 0u64;
    let mut seq = 0u64;
    // A burst of a hundred at once, then fifty a second, while an attacker floods.
    for _ in 0..100 {
        seq += 1;
        let d = v.validate_at(now, &honest, None, &good(seq, vec![1]));
        assert_ne!(d.reason, Reason::RateLimited);
    }
    for round in 0..500u64 {
        now += 20_000;
        for k in 0..4u8 {
            let _ = v.validate_at(now, &attacker, None, &[round as u8, k, 0xff, 0xff, 0xff]);
        }
        seq += 1;
        let d = v.validate_at(now, &honest, None, &good(seq, vec![1]));
        assert_eq!(d.acceptance, Acceptance::Accept, "round {round}");
    }
    assert!(v.is_quarantined(&attacker));
    assert_eq!(v.get_peer_score(&honest), 0);
}

#[test]
fn author_that_lost_its_place_starts_over() {
    let cfg = ValidatorConfig { max_peers: 2, ..ValidatorConfig::new(16384) };
    let mut v = Validator::new(cfg);
    let (author, other, newcomer) = (peer(1), peer(2), peer(3));
    assert_eq!(v.validate_at(0, &author, None, &good(100, vec![1])).acceptance, Acceptance::Accept);
    assert_eq!(v.validate_at(0, &other, None, &good(1, vec![2])).acceptance, Acceptance::Accept);
    // The newcomer takes the place of the author, the oldest peer, before the
    // message is looked at; the author comes back as a peer never seen.
    let d = v.validate_at(0, &newcomer, Some(&author), &good(5, vec![3]));
    assert_eq!(d.acceptance, Acceptance::Accept);
    assert_eq!(v.get_peer_last_seq(&author), Some(5));
    let ids: Vec<PeerId> = v.dump_peer_states().into_iter().map(|(id, _, _)| id).collect();
    assert_eq!(ids, vec![newcomer, author]);
}

#[test]
fn burst_of_one_more_than_the_bucket_holds() {
    for capacity in [0u32, 1, 3, 20] {
        let cfg = ValidatorConfig { token_bucket_capacity: capacity, ..ValidatorConfig::new(16384) };
        let mut v = Validator::new(cfg);
        let p = peer(1);
        for seq in 1..=capacity as u64 {
            let d = v.validate_at(7_000, &p, None, &good(seq * 2, vec![1]));
            assert_eq!((d.acceptance, d.reason), (Acceptance::Accept, Reason::Passed));
        }
        let d = v.validate_at(7_000, &p, None, &good(1000, vec![1]));
        assert_eq!((d.acceptance, d.reason), (Acceptance::Reject, Reason::RateLimited));
        assert_eq!(v.get_peer_score(&p), -5 * SCORE_UNIT);
        assert_eq!(v.get_offence_count(&p), 1);
        assert!(!v.is_quarantined(&p));
        let last = if capacity == 0 { None } else { Some(capacity as u64 * 2) };
        assert_eq!(v.get_peer_last_seq(&p), last);
    }
}
