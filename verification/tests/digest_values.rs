use sha2::Digest;
use gossipsub_score_sim::digest::{dedupe_key, message_id, same_key, DOMAIN_TAG};

#[test]
fn domain_tag_is_the_protocol_string() {
    assert_eq!(&DOMAIN_TAG[..], b"gossipsub-v1.1:");
}

#[test]
fn key_is_sha256_of_tag_and_bytes() {
    assert_eq!(
        dedupe_key(b"abc"),
        [
            137, 126, 123, 127, 57, 6, 31, 47, 69, 175, 193, 94, 243, 185, 90, 83, 102, 59, 55,
            170, 29, 210, 175, 10, 238, 48, 44, 16, 24, 125, 169, 19
        ]
    );
    assert_eq!(
        dedupe_key(b""),
        [
            173, 193, 160, 44, 214, 43, 66, 8, 145, 236, 216, 69, 19, 69, 157, 161, 224, 208, 9,
            118, 234, 220, 131, 0, 101, 46, 251, 164, 226, 187, 95, 92
        ]
    );
}

#[test]
fn key_differs_from_untagged_sha256() {
    let plain: [u8; 32] = sha2::Sha256::digest(b"abc").into();
    assert_ne!(dedupe_key(b"abc"), plain);
    let mut tagged = b"gossipsub-v1.1:".to_vec();
    tagged.extend_from_slice(b"abc");
    let expected: [u8; 32] = sha2::Sha256::digest(&tagged).into();
    assert_eq!(dedupe_key(b"abc"), expected);
}

#[test]
fn message_id_is_lower_case_hex_of_the_key() {
    assert_eq!(
        message_id(b"abc"),
        "897e7b7f39061f2f45afc15ef3b95a53663b37aa1dd2af0aee302c10187da913"
    );
    assert_eq!(
        message_id(&[1, 0, 0, 0]),
        "708829e12a25a2f1f3cad301e38289c81f4b61e13d4b558982b850d87cc2beac"
    );
    assert_eq!(message_id(b"abc").len(), 64);
}

#[test]
fn same_key_compares_all_bytes() {
    let a = dedupe_key(b"one");
    let mut b = a;
    assert!(same_key(&a, &b));
    b[31] ^= 1;
    assert!(!same_key(&a, &b));
    b = a;
    b[0] ^= 0x80;
    assert!(!same_key(&a, &b));
}
