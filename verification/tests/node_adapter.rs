use gossipsub_score_sim::codec::{encode, WireMessage};
use gossipsub_score_sim::decision::{Acceptance, Reason};
use gossipsub_score_sim::metrics::{bump, Counters, PeerMetrics};
use gossipsub_score_sim::p2p::{
    average, contains_peer, Node, NodeAction, NodeCommand, NodeConfig, NodeEvent, NodeSummary,
};
use gossipsub_score_sim::peers::PeerId;

fn id(n: u8) -> PeerId {
    PeerId::from_bytes(vec![n; 34])
}

fn node_with_bad(bad: Vec<PeerId>) -> Node {
    let cfg = NodeConfig { idx: 3, topic: "test-topic".to_string(), max_message_bytes: 16384 };
    Node::new(cfg, bad)
}

fn good_bytes(seq: u64, payload: Vec<u8>) -> Vec<u8> {
    encode(&WireMessage::Good { seq, payload })
}

fn summary_of(node: &mut Node) -> NodeSummary {
    match node.on_command(Some(NodeCommand::Shutdown)) {
        NodeAction::Finish(NodeEvent::Summary(s)) => s,
        other => panic!("unexpected action {other:?}"),
    }
}

#[test]
fn counters_start_at_zero_and_count_each_verdict() {
    let mut c = Counters::default();
    assert_eq!(c, Counters { accepted: 0, rejected: 0, ignored: 0, quarantined_peers: 0 });
    c.record(Acceptance::Accept);
    c.record(Acceptance::Reject);
    c.record(Acceptance::Reject);
    c.record(Acceptance::Ignore);
    assert_eq!(c, Counters { accepted: 1, rejected: 2, ignored: 1, quarantined_peers: 0 });
}

#[test]
fn counters_stop_at_their_end() {
    assert_eq!(bump(41), 42);
    assert_eq!(bump(u64::MAX), u64::MAX);
    let mut c = Counters { accepted: u64::MAX, rejected: 0, ignored: 0, quarantined_peers: 0 };
    c.record(Acceptance::Accept);
    assert_eq!(c.accepted, u64::MAX);
}

#[test]
fn peer_metrics_hold_plain_values() {
    let m = PeerMetrics { score: -80_000, messages_sent: 10, messages_rejected: 4 };
    assert_eq!(m, m.clone());
    assert_eq!(m.score, -80_000);
}

#[test]
fn average_credit_matches_the_formula() {
    assert_eq!(average(0, 0), 0);
    assert_eq!(average(10, 0), 100);
    assert_eq!(average(0, 10), -3000);
    // (3 * 0.1 - 1 * 3.0) / 4 = -0.675
    assert_eq!(average(3, 1), -675);
    // (30 * 0.1 - 1 * 3.0) / 31 = 0
    assert_eq!(average(30, 1), 0);
    // (31 * 0.1 - 1 * 3.0) / 32 = 0.003125, rounded toward zero
    assert_eq!(average(31, 1), 3);
    // (1 * 0.1 - 2 * 3.0) / 3 = -1.9666..., rounded toward zero
    assert_eq!(average(1, 2), -1966);
    assert_eq!(average(u64::MAX, u64::MAX), -1450);
}

#[test]
fn commands_map_to_actions() {
    let mut node = node_with_bad(vec![]);
    assert_eq!(node.idx(), 3);
    assert_eq!(node.topic(), "test-topic");
    match node.on_command(Some(NodeCommand::Dial { addr: "/ip4/127.0.0.1/tcp/4001".to_string() })) {
        NodeAction::Dial { addr } => assert_eq!(addr, "/ip4/127.0.0.1/tcp/4001"),
        other => panic!("unexpected action {other:?}"),
    }
    assert!(matches!(node.on_command(Some(NodeCommand::Subscribe)), NodeAction::Subscribe));
    match node.on_command(Some(NodeCommand::Publish { data: vec![1, 2, 3] })) {
        NodeAction::Publish { data } => assert_eq!(data, vec![1, 2, 3]),
        other => panic!("unexpected action {other:?}"),
    }
    assert!(matches!(
        node.on_command(Some(NodeCommand::SetBadPeers { bad_peer_ids: vec![id(9)] })),
        NodeAction::Nothing
    ));
    assert!(!node.is_honest(&id(9)));
    assert!(node.is_honest(&id(8)));
    assert!(matches!(node.on_command(None), NodeAction::Finish(NodeEvent::Summary(_))));
    match node.on_listen_addr("/ip4/127.0.0.1/tcp/9".to_string()) {
        NodeEvent::NewListenAddr(addr) => assert_eq!(addr, "/ip4/127.0.0.1/tcp/9"),
        other => panic!("unexpected event {other:?}"),
    }
}

#[test]
fn contains_peer_compares_identities() {
    let peers = vec![id(1), id(2)];
    assert!(contains_peer(&peers, &id(2)));
    assert!(!contains_peer(&peers, &id(3)));
    assert!(!contains_peer(&vec![], &id(1)));
}

#[test]
fn messages_are_counted_by_verdict_and_by_author_honesty() {
    let (honest, attacker, forwarder) = (id(1), id(2), id(3));
    let mut node = node_with_bad(vec![attacker.clone()]);

    let r = node.on_message_at(0, &forwarder, Some(&honest), &good_bytes(1, vec![1]));
    assert_eq!((r.acceptance, r.reason), (Acceptance::Accept, Reason::Passed));
    assert_eq!(r.score_update, None);

    let r = node.on_message_at(0, &forwarder, Some(&attacker), &encode(&WireMessage::Bad));
    assert_eq!((r.acceptance, r.reason), (Acceptance::Reject, Reason::MaliciousPayload));
    assert_eq!(r.score_update, Some((attacker.clone(), -80_000)));

    // An honest author whose message is rejected counts among the honest rejections.
    let r = node.on_message_at(0, &forwarder, Some(&honest), &good_bytes(2, vec![]));
    assert_eq!(r.reason, Reason::EmptyPayload);
    assert_eq!(r.score_update, Some((honest.clone(), -30_000)));

    // Replays are ignored and count for nobody.
    let r = node.on_message_at(0, &forwarder, Some(&honest), &good_bytes(1, vec![9]));
    assert_eq!((r.acceptance, r.reason), (Acceptance::Ignore, Reason::ReplayOrOldSeq));
    assert_eq!(r.score_update, Some((honest.clone(), -30_000)));

    // Honesty goes by the author, not by the forwarder.
    let r = node.on_message_at(0, &attacker, Some(&honest), &good_bytes(5, vec![5]));
    assert_eq!(r.acceptance, Acceptance::Accept);

    assert_eq!(
        summary_of(&mut node),
        NodeSummary {
            accepted: 2,
            rejected: 2,
            ignored: 1,
            quarantined_peers: 0,
            avg_peer_score: -1450,
            honest_accepted: 2,
            honest_rejected: 1,
        }
    );
}

#[test]
fn missing_author_is_classified_by_the_forwarder() {
    let attacker = id(2);
    let mut node = node_with_bad(vec![attacker.clone()]);
    let r = node.on_message_at(0, &attacker, None, &good_bytes(1, vec![1]));
    assert_eq!(r.acceptance, Acceptance::Accept);
    let r = node.on_message_at(0, &attacker, None, &[0u8; 10]);
    assert_eq!(r.reason, Reason::DecodeError);
    assert_eq!(r.score_update, Some((attacker.clone(), -30_000)));
    let s = summary_of(&mut node);
    assert_eq!((s.accepted, s.rejected, s.honest_accepted, s.honest_rejected), (1, 1, 0, 0));
}

#[test]
fn summary_counts_quarantined_peers() {
    let (attacker, forwarder) = (id(2), id(3));
    let mut node = node_with_bad(vec![attacker.clone()]);
    for mark in 0..3u8 {
        // Three different byte strings that are no message.
        node.on_message_at(0, &forwarder, Some(&attacker), &[9, 9, 9, 9, mark]);
    }
    assert!(node.validator().is_quarantined(&attacker));
    let s = summary_of(&mut node);
    assert_eq!(s.quarantined_peers, 1);
    assert_eq!((s.accepted, s.rejected, s.ignored), (0, 3, 0));
    assert_eq!(s.avg_peer_score, -3000);
}

#[test]
fn new_bad_peer_list_replaces_the_old_one() {
    let mut node = node_with_bad(vec![id(1)]);
    assert!(!node.is_honest(&id(1)));
    node.on_command(Some(NodeCommand::SetBadPeers { bad_peer_ids: vec![id(2), id(3)] }));
    assert!(node.is_honest(&id(1)));
    assert!(!node.is_honest(&id(2)));
    assert!(!node.is_honest(&id(3)));
}

#[test]
fn on_message_reads_the_clock() {
    let mut node = node_with_bad(vec![]);
    let r = node.on_message(&id(1), Some(&id(2)), &good_bytes(1, vec![1]));
    assert_eq!(r.acceptance, Acceptance::Accept);
}

#[test]
fn rate_limit_reject_reports_the_forwarder_score() {
    let (forwarder, author) = (id(1), id(2));
    let mut node = node_with_bad(vec![]);
    // A hundred messages at one instant empty the forwarder's bucket.
    for seq in 1..=100u64 {
        let r = node.on_message_at(0, &forwarder, Some(&author), &good_bytes(seq, vec![1]));
        assert_eq!(r.acceptance, Acceptance::Accept);
        assert_eq!(r.score_update, None);
    }
    let r = node.on_message_at(0, &forwarder, Some(&author), &good_bytes(101, vec![1]));
    assert_eq!((r.acceptance, r.reason), (Acceptance::Reject, Reason::RateLimited));
    assert_eq!(r.score_update, Some((forwarder.clone(), -5_000)));
    assert_eq!(node.validator().get_app_score_option(&author), None);
    // The next rate-limit reject is half a base penalty dearer.
    let r = node.on_message_at(0, &forwarder, Some(&author), &good_bytes(102, vec![1]));
    assert_eq!(r.score_update, Some((forwarder.clone(), -12_500)));
    // A reject for what the message holds goes to the author.
    let r = node.on_message_at(1_000_000, &forwarder, Some(&author), &[0u8; 3]);
    assert_eq!(r.reason, Reason::DecodeError);
    assert_eq!(r.score_update, Some((author.clone(), -30_000)));
}
