use gossipsub_score_sim::codec::{encode, WireMessage};
use gossipsub_score_sim::config::SCORE_UNIT;
use gossipsub_score_sim::decision::Acceptance;
use gossipsub_score_sim::digest::message_id;
use gossipsub_score_sim::peers::PeerId;
use gossipsub_score_sim::validator::{Validator, ValidatorConfig};

fn random_peer() -> PeerId {
    PeerId::from_bytes(libp2p::PeerId::random().to_bytes())
}

#[test]
fn bad_peer_quarantines_after_multiple_offences() {
    let mut v = Validator::new(ValidatorConfig::new(16384));
    let bad = random_peer();

    v.record_offence_and_update(&bad, -80 * SCORE_UNIT);
    assert!(!v.is_quarantined(&bad));

    // -80 - 60 * 1.5 = -170
    v.record_offence_and_update(&bad, -60 * SCORE_UNIT);
    assert!(v.is_quarantined(&bad));
    assert_eq!(v.get_peer_score(&bad), -170 * SCORE_UNIT);
}

#[test]
fn overlay_peer_ids_round_trip() {
    for _ in 0..20 {
        let overlay = libp2p::PeerId::random();
        let id = PeerId::from_bytes(overlay.to_bytes());
        assert_eq!(libp2p::PeerId::from_bytes(id.as_bytes()).unwrap(), overlay);
        assert!(id.same(&PeerId::from_slice(&overlay.to_bytes())));
    }
    let a = random_peer();
    let b = random_peer();
    assert!(!a.same(&b));
}

#[test]
fn random_peers_are_told_apart_by_the_validator() {
    let mut v = Validator::new(ValidatorConfig::new(16384));
    let peers: Vec<PeerId> = (0..50).map(|_| random_peer()).collect();
    for (i, p) in peers.iter().enumerate() {
        let bytes = encode(&WireMessage::Good { seq: 1, payload: vec![i as u8] });
        assert_eq!(v.validate(p, Some(p), &bytes).acceptance, Acceptance::Accept);
    }
    for p in &peers {
        assert_eq!(v.get_peer_last_seq(p), Some(1));
    }
    assert_eq!(v.dump_peer_states().len(), 50);
}

#[test]
fn message_id_fits_the_overlay() {
    let id = libp2p::gossipsub::MessageId::from(message_id(b"abc"));
    assert_eq!(id.0.len(), 64);
}
