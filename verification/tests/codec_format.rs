use gossipsub_score_sim::codec::{decode, encode, DecodeError, WireMessage};

fn good_msg(seq: u64, payload: Vec<u8>) -> WireMessage {
    WireMessage::Good { seq, payload }
}

#[test]
fn good_message_has_the_documented_layout() {
    let bytes = encode(&good_msg(1, vec![1, 2, 3]));
    assert_eq!(
        bytes,
        vec![0, 0, 0, 0, 1, 0, 0, 0, 0, 0, 0, 0, 3, 0, 0, 0, 0, 0, 0, 0, 1, 2, 3]
    );
}

#[test]
fn bad_message_is_its_tag() {
    assert_eq!(encode(&WireMessage::Bad), vec![1, 0, 0, 0]);
}

#[test]
fn sequence_number_is_little_endian() {
    let bytes = encode(&good_msg(0x0102_0304_0506_0708, vec![9]));
    assert_eq!(&bytes[4..12], &[8, 7, 6, 5, 4, 3, 2, 1]);
    assert_eq!(&bytes[12..20], &[1, 0, 0, 0, 0, 0, 0, 0]);
    assert_eq!(bytes[20], 9);
}

#[test]
fn encoding_is_deterministic() {
    let msg = good_msg(77, vec![5; 300]);
    assert_eq!(encode(&msg), encode(&msg.clone()));
}

#[test]
fn decode_inverts_encode() {
    for msg in [
        good_msg(0, vec![]),
        good_msg(1, vec![1, 2, 3]),
        good_msg(u64::MAX, vec![0xff; 1000]),
        WireMessage::Bad,
    ] {
        assert_eq!(decode(&encode(&msg)), Ok(msg));
    }
}

#[test]
fn bytes_after_the_message_are_refused() {
    let mut bytes = encode(&good_msg(4, vec![7, 8]));
    bytes.extend_from_slice(&[0xde, 0xad]);
    assert_eq!(decode(&bytes), Err(DecodeError::TrailingBytes));
    let mut bad = encode(&WireMessage::Bad);
    bad.push(42);
    assert_eq!(decode(&bad), Err(DecodeError::TrailingBytes));
    let mut empty = encode(&good_msg(0, vec![]));
    empty.push(0);
    assert_eq!(decode(&empty), Err(DecodeError::TrailingBytes));
    assert_eq!(decode(&[0u8; 21]), Err(DecodeError::TrailingBytes));
}

#[test]
fn what_decodes_is_the_encoding_of_what_it_decodes_to() {
    let inputs: Vec<Vec<u8>> = vec![
        vec![1, 0, 0, 0],
        vec![0u8; 20],
        encode(&good_msg(9, vec![1, 2, 3])),
        vec![1, 0, 0, 0, 0],
        vec![0u8; 25],
        vec![2, 0, 0, 0],
    ];
    for bytes in inputs {
        if let Ok(msg) = decode(&bytes) {
            assert_eq!(encode(&msg), bytes);
        }
    }
}

#[test]
fn short_input_is_truncated() {
    assert_eq!(decode(&[]), Err(DecodeError::Truncated));
    assert_eq!(decode(&[0, 0, 0]), Err(DecodeError::Truncated));
    assert_eq!(decode(&[0u8; 10]), Err(DecodeError::Truncated));
    assert_eq!(decode(&[0u8; 19]), Err(DecodeError::Truncated));
}

#[test]
fn unknown_tag_is_refused() {
    assert_eq!(decode(&[2, 0, 0, 0]), Err(DecodeError::UnknownTag));
    assert_eq!(decode(&[0, 1, 0, 0, 0, 0, 0, 0]), Err(DecodeError::UnknownTag));
    assert_eq!(decode(&[0xff; 64]), Err(DecodeError::UnknownTag));
}

#[test]
fn payload_length_beyond_input_is_refused() {
    let mut bytes = encode(&good_msg(1, vec![1, 2, 3]));
    bytes.pop();
    assert_eq!(decode(&bytes), Err(DecodeError::PayloadOutOfBounds));
    let mut huge = vec![0u8; 20];
    for b in &mut huge[12..20] {
        *b = 0xff;
    }
    assert_eq!(decode(&huge), Err(DecodeError::PayloadOutOfBounds));
}

#[test]
fn header_alone_is_an_empty_good_message() {
    assert_eq!(decode(&[0u8; 20]), Ok(good_msg(0, vec![])));
}

#[test]
fn layout_is_that_of_bincode_with_fixed_width_integers() {
    let payload = vec![10u8, 20, 30, 40];
    let expected = bincode::serialize(&(0u32, 99u64, &payload)).unwrap();
    assert_eq!(encode(&good_msg(99, payload)), expected);
    assert_eq!(encode(&WireMessage::Bad), bincode::serialize(&1u32).unwrap());
    let (tag, seq, body): (u32, u64, Vec<u8>) =
        bincode::deserialize(&encode(&good_msg(5, vec![1]))).unwrap();
    assert_eq!((tag, seq, body), (0, 5, vec![1]));
}
