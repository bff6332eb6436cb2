use gossipsub_score_sim::cli::Cli;
use gossipsub_score_sim::codec::{decode, WireMessage};
use gossipsub_score_sim::p2p::NodeSummary;
use gossipsub_score_sim::sim::{add_capped, PublisherPlan, SimulationTotals};
use gossipsub_score_sim::traffic::{
    draw_spam, generator, honest_message, marked_payload, next_message, pattern_payload,
    spam_message, SPAM_CORRUPT, SPAM_EMPTY, SPAM_JUNK, SPAM_MALICIOUS, SPAM_OVERSIZE, SPAM_REPLAY,
    SPAM_SHORT_JUNK, SPAM_STALE,
};

fn summary(accepted: u64, rejected: u64, ignored: u64, quarantined: u64) -> NodeSummary {
    NodeSummary {
        accepted,
        rejected,
        ignored,
        quarantined_peers: quarantined,
        avg_peer_score: 0,
        honest_accepted: accepted / 2,
        honest_rejected: rejected / 3,
    }
}

#[test]
fn default_options() {
    let cli = Cli::default();
    assert_eq!((cli.peers, cli.bad_peers, cli.duration_secs), (8, 2, 20));
    assert_eq!((cli.publish_per_sec, cli.spam_per_sec, cli.seed), (5, 50, 1337));
    assert_eq!(cli.topic, "frost-sim/coordination/1");
    assert_eq!(cli.max_message_bytes, 16 * 1024);
}

#[test]
fn peer_counts_are_normalised() {
    let mut cli = Cli::default();
    assert_eq!((cli.peer_count(), cli.bad_peer_count(), cli.honest_peer_count()), (8, 2, 6));
    cli.peers = 0;
    cli.bad_peers = 5;
    assert_eq!((cli.peer_count(), cli.bad_peer_count(), cli.honest_peer_count()), (1, 1, 0));
    cli.peers = 3;
    cli.bad_peers = 3;
    assert_eq!((cli.peer_count(), cli.bad_peer_count(), cli.honest_peer_count()), (3, 3, 0));
}

#[test]
fn node_config_uses_the_shared_topic() {
    let cli = Cli::default();
    let cfg = cli.node_config(4);
    assert_eq!((cfg.idx, cfg.topic.as_str(), cfg.max_message_bytes), (4, "test-topic", 16384));
}

#[test]
fn publishers_follow_the_plan() {
    let cli = Cli::default();
    assert_eq!(
        cli.publisher(1),
        PublisherPlan {
            node: 1,
            is_bad: true,
            seed: 1338,
            rate: 50,
            interval_nanos: 20_000_000,
            max_message_bytes: 16384,
        }
    );
    assert_eq!(
        cli.publisher(2),
        PublisherPlan {
            node: 2,
            is_bad: false,
            seed: 1339,
            rate: 5,
            interval_nanos: 200_000_000,
            max_message_bytes: 16384,
        }
    );
}

#[test]
fn publisher_edge_cases() {
    let mut cli = Cli::default();
    cli.seed = u64::MAX;
    cli.publish_per_sec = 0;
    cli.spam_per_sec = u64::MAX;
    assert_eq!(cli.publisher(0).interval_nanos, 0);
    cli.spam_per_sec = 1_000_000_000;
    assert_eq!(cli.publisher(0).interval_nanos, 1);
    let honest = cli.publisher(3);
    assert_eq!((honest.seed, honest.rate, honest.interval_nanos), (2, 0, 1_000_000_000));
    cli.publish_per_sec = 3;
    assert_eq!(cli.publisher(7).interval_nanos, 333_333_333);
}

#[test]
fn totals_add_up_the_summaries() {
    assert_eq!(
        SimulationTotals::collect(&vec![]),
        SimulationTotals {
            accepted: 0,
            rejected: 0,
            ignored: 0,
            quarantined: 0,
            honest_accepted: 0,
            honest_rejected: 0
        }
    );
    let t = SimulationTotals::collect(&vec![summary(10, 6, 1, 2), summary(4, 9, 3, 0)]);
    assert_eq!(
        t,
        SimulationTotals {
            accepted: 14,
            rejected: 15,
            ignored: 4,
            quarantined: 2,
            honest_accepted: 7,
            honest_rejected: 5
        }
    );
    assert_eq!(t.messages(), 33);
}

#[test]
fn totals_stop_at_the_end_of_the_counter() {
    assert_eq!(add_capped(u64::MAX - 1, 1), u64::MAX);
    assert_eq!(add_capped(u64::MAX - 1, 2), u64::MAX);
    assert_eq!(add_capped(2, 3), 5);
    let t = SimulationTotals::collect(&vec![summary(u64::MAX, 1, 1, 0), summary(5, 1, 1, 0)]);
    assert_eq!(t.accepted, u64::MAX);
    assert_eq!(t.messages(), u64::MAX);
}

#[test]
fn honest_messages_carry_the_node_pattern() {
    let bytes = honest_message(3, 7);
    match decode(&bytes).unwrap() {
        WireMessage::Good { seq, payload } => {
            assert_eq!(seq, 7);
            assert_eq!(payload.len(), 100);
            assert_eq!(payload[0], 10);
            assert_eq!(payload[99], 109);
        }
        WireMessage::Bad => panic!("honest message decoded as bad"),
    }
    assert_eq!(pattern_payload(250, 3, 5), vec![253, 254, 255, 0, 1]);
    assert_eq!(pattern_payload(usize::MAX, u64::MAX, 2), vec![254, 255]);
    assert_ne!(honest_message(3, 7), honest_message(4, 7));
    assert_ne!(honest_message(3, 7), honest_message(3, 8));
}

#[test]
fn marked_payload_ends_with_the_node_index() {
    assert_eq!(marked_payload(1, 3, 0x0102_0304), vec![1, 1, 1, 4, 3, 2, 1]);
    assert_eq!(marked_payload(9, 0, 5), vec![5, 0, 0, 0]);
}

#[test]
fn each_kind_of_spam_is_what_it_says() {
    let good = |bytes: &[u8]| match decode(bytes).unwrap() {
        WireMessage::Good { seq, payload } => (seq, payload),
        WireMessage::Bad => panic!("expected a good message"),
    };
    assert_eq!(spam_message(SPAM_JUNK, 1, 9, 0, vec![7, 7]), vec![7, 7]);
    assert_eq!(spam_message(SPAM_SHORT_JUNK, 1, 9, 0, vec![8]), vec![8]);
    assert_eq!(spam_message(99, 1, 9, 0, vec![8]), vec![8]);

    let (seq, payload) = good(&spam_message(SPAM_OVERSIZE, 1, 9, 300, vec![]));
    assert_eq!((seq, payload.len(), payload[0], payload[255]), (9, 300, 10, 9));

    assert_eq!(good(&spam_message(SPAM_EMPTY, 1, 9, 0, vec![])), (9, vec![]));
    assert_eq!(decode(&spam_message(SPAM_MALICIOUS, 1, 9, 0, vec![])), Ok(WireMessage::Bad));

    let (seq, payload) = good(&spam_message(SPAM_REPLAY, 6, 9, 0, vec![]));
    assert_eq!((seq, payload.len()), (4, 54));
    assert_eq!(&payload[..50], &[1u8; 50][..]);
    assert_eq!(&payload[50..], &[6, 0, 0, 0]);
    assert_eq!(good(&spam_message(SPAM_REPLAY, 6, 3, 0, vec![])).0, 0);

    let corrupt = spam_message(SPAM_CORRUPT, 1, 9, 0, vec![]);
    assert_eq!(corrupt.len(), 40);
    assert_eq!(&corrupt[..4], &[0xff, 0xfe, 0, 0]);
    assert!(decode(&corrupt).is_err());

    let (seq, payload) = good(&spam_message(SPAM_STALE, 6, 9, 0, vec![]));
    assert_eq!((seq, payload.len()), (8, 34));
    assert_eq!(&payload[..30], &[2u8; 30][..]);
    assert_eq!(good(&spam_message(SPAM_STALE, 6, 0, 0, vec![])).0, 0);
}

#[test]
fn drawn_spam_is_reproducible_and_within_bounds() {
    let max = 1024usize;
    let mut a = generator(1337);
    let mut b = generator(1337);
    let mut saw_oversize = false;
    let mut saw_noise = false;
    for seq in 1..=400u64 {
        let x = draw_spam(&mut a, 2, seq, max);
        let y = draw_spam(&mut b, 2, seq, max);
        assert_eq!(x, y);
        assert!(!x.is_empty());
        // No kind is longer than an oversize message of twice the limit.
        assert!(x.len() <= 2 * max + 20);
        if x.len() > max {
            // Only the oversize kind is over the limit, and it decodes.
            saw_oversize = true;
            match decode(&x).unwrap() {
                WireMessage::Good { seq: s, payload } => {
                    assert_eq!(s, seq);
                    assert!(payload.len() >= max && payload.len() <= 2 * max);
                }
                WireMessage::Bad => panic!("oversize spam decoded as bad"),
            }
        }
        // Random bytes were written over the zeroes.
        if x.len() <= 20 && x.len() != 4 && x.iter().any(|b| *b != 0) {
            saw_noise = true;
        }
    }
    assert!(saw_oversize);
    assert!(saw_noise);
    let mut c = generator(1338);
    let differs = (1..=50u64).any(|seq| draw_spam(&mut c, 2, seq, max) != draw_spam(&mut a, 2, seq, max));
    assert!(differs);
}

#[test]
fn next_message_follows_the_kind_of_node() {
    let mut rng = generator(1);
    assert_eq!(next_message(&mut rng, false, 3, 7, 16384), Some(honest_message(3, 7)));
    assert_eq!(next_message(&mut rng, false, 3, 7, 0), Some(honest_message(3, 7)));
    let spam = next_message(&mut rng, true, 3, 7, 16384).unwrap();
    assert!(!spam.is_empty());
    // With no room to draw a junk length, an attacker has nothing to send.
    assert_eq!(next_message(&mut rng, true, 3, 7, 1), None);
    assert_eq!(next_message(&mut rng, true, 3, 7, usize::MAX), None);
    assert!(next_message(&mut rng, true, 3, 7, 2).is_some());
}
