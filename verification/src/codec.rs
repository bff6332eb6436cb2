//! Wire format of application messages.
//!
//! A message is a little-endian `u32` variant tag followed by the variant's
//! fields, each integer at its full width:
//!
//! ```text
//! Good:  00 00 00 00 | seq: u64 | payload length: u64 | payload bytes
//! Bad:   01 00 00 00
//! ```
//!
//! A byte string is a message only if it is the encoding of one: decoding
//! refuses input that ends early and input that goes on after the message.
//! There is no bound on the length of the input.

use vstd::bytes::*;
use vstd::prelude::*;
use vstd::slice::*;

verus! {

/// Variant tag of [`WireMessage::Good`].
pub const TAG_GOOD: u32 = 0;

/// Variant tag of [`WireMessage::Bad`].
pub const TAG_BAD: u32 = 1;

/// Bytes before the payload of a `Good` message: tag, sequence number, length.
pub const GOOD_HEADER_LEN: usize = 20;

/// An application message as it travels over the overlay.
#[derive(Debug, Clone, PartialEq, Eq)]
pub enum WireMessage {
    /// Ordinary traffic: a sequence number and a payload.
    Good { seq: u64, payload: Vec<u8> },
    /// A message that declares itself malicious.
    Bad,
}

/// Mathematical value of a [`WireMessage`].
pub enum MessageView {
    Good { seq: u64, payload: Seq<u8> },
    Bad,
}

impl View for WireMessage {
    type V = MessageView;

    open spec fn view(&self) -> MessageView {
        match self {
            WireMessage::Good { seq, payload } => MessageView::Good { seq: *seq, payload: payload@ },
            WireMessage::Bad => MessageView::Bad,
        }
    }
}

/// Why a byte string is not a message.
#[derive(Debug, Clone, Copy, PartialEq, Eq, Structural)]
pub enum DecodeError {
    /// The input ends before the tag or before the header of a `Good` message.
    Truncated,
    /// The tag names no variant.
    UnknownTag,
    /// The payload length exceeds the bytes that follow the header.
    PayloadOutOfBounds,
    /// The input goes on after the end of the message.
    TrailingBytes,
}

/// The bytes of a message.
pub open spec fn spec_encode(msg: MessageView) -> Seq<u8> {
    match msg {
        MessageView::Good { seq, payload } => spec_u32_to_le_bytes(TAG_GOOD)
            + spec_u64_to_le_bytes(seq) + spec_u64_to_le_bytes(payload.len() as u64) + payload,
        MessageView::Bad => spec_u32_to_le_bytes(TAG_BAD),
    }
}

/// The message that `bytes` encodes, or the reason it encodes none.
pub open spec fn spec_decode(bytes: Seq<u8>) -> Result<MessageView, DecodeError> {
    if bytes.len() < 4 {
        Err(DecodeError::Truncated)
    } else {
        let tag = spec_u32_from_le_bytes(bytes.subrange(0, 4));
        if tag == TAG_GOOD {
            if bytes.len() < GOOD_HEADER_LEN {
                Err(DecodeError::Truncated)
            } else {
                let seq = spec_u64_from_le_bytes(bytes.subrange(4, 12));
                let len = spec_u64_from_le_bytes(bytes.subrange(12, 20));
                if len > bytes.len() - GOOD_HEADER_LEN {
                    Err(DecodeError::PayloadOutOfBounds)
                } else if len < bytes.len() - GOOD_HEADER_LEN {
                    Err(DecodeError::TrailingBytes)
                } else {
                    Ok(MessageView::Good { seq, payload: bytes.subrange(20, 20 + len) })
                }
            }
        } else if tag == TAG_BAD {
            if bytes.len() > 4 {
                Err(DecodeError::TrailingBytes)
            } else {
                Ok(MessageView::Bad)
            }
        } else {
            Err(DecodeError::UnknownTag)
        }
    }
}

/// Encodes a message for transmission.
pub fn encode(msg: &WireMessage) -> (out: Vec<u8>)
    ensures
        out@ == spec_encode(msg@),
{
    match msg {
        WireMessage::Good { seq, payload } => {
            let mut out = u32_to_le_bytes(TAG_GOOD);
            let mut seq_bytes = u64_to_le_bytes(*seq);
            let mut len_bytes = u64_to_le_bytes(payload.len() as u64);
            out.append(&mut seq_bytes);
            out.append(&mut len_bytes);
            let ghost head = out@;
            let n = payload.len();
            let mut i: usize = 0;
            while i < n
                invariant
                    n == payload@.len(),
                    i <= n,
                    out@ == head + payload@.subrange(0, i as int),
                decreases n - i,
            {
                out.push(payload[i]);
                i += 1;
            }
            assert(payload@.subrange(0, n as int) == payload@);
            out
        },
        WireMessage::Bad => u32_to_le_bytes(TAG_BAD),
    }
}

/// Decodes the message that `bytes` encodes. Succeeds on the encodings
/// of messages and on nothing else.
pub fn decode(bytes: &[u8]) -> (r: Result<WireMessage, DecodeError>)
    ensures
        match r {
            Ok(msg) => spec_decode(bytes@) == Ok::<MessageView, DecodeError>(msg@)
                && spec_encode(msg@) == bytes@,
            Err(e) => spec_decode(bytes@) == Err::<MessageView, DecodeError>(e),
        },
{
    proof {
        if spec_decode(bytes@) is Ok {
            law_encode_after_decode(bytes@, spec_decode(bytes@).unwrap());
        }
    }
    if bytes.len() < 4 {
        return Err(DecodeError::Truncated);
    }
    let tag = u32_from_le_bytes(slice_subrange(bytes, 0, 4));
    if tag == TAG_GOOD {
        if bytes.len() < GOOD_HEADER_LEN {
            return Err(DecodeError::Truncated);
        }
        let seq = u64_from_le_bytes(slice_subrange(bytes, 4, 12));
        let len = u64_from_le_bytes(slice_subrange(bytes, 12, 20));
        if len > (bytes.len() - GOOD_HEADER_LEN) as u64 {
            return Err(DecodeError::PayloadOutOfBounds);
        }
        if len < (bytes.len() - GOOD_HEADER_LEN) as u64 {
            return Err(DecodeError::TrailingBytes);
        }
        let end: usize = GOOD_HEADER_LEN + len as usize;
        let payload = slice_to_vec(slice_subrange(bytes, GOOD_HEADER_LEN, end));
        Ok(WireMessage::Good { seq, payload })
    } else if tag == TAG_BAD {
        if bytes.len() > 4 {
            return Err(DecodeError::TrailingBytes);
        }
        Ok(WireMessage::Bad)
    } else {
        Err(DecodeError::UnknownTag)
    }
}

/// Decoding inverts encoding.
pub proof fn law_decode_after_encode(msg: MessageView)
    requires
        msg matches MessageView::Good { payload, .. } ==> payload.len() <= u64::MAX,
    ensures
        spec_decode(spec_encode(msg)) == Ok::<MessageView, DecodeError>(msg),
{
    lemma_auto_spec_u32_to_from_le_bytes();
    lemma_auto_spec_u64_to_from_le_bytes();
    let bytes = spec_encode(msg);
    match msg {
        MessageView::Good { seq, payload } => {
            let len = payload.len() as u64;
            assert(bytes.subrange(0, 4) == spec_u32_to_le_bytes(TAG_GOOD));
            assert(bytes.subrange(4, 12) == spec_u64_to_le_bytes(seq));
            assert(bytes.subrange(12, 20) == spec_u64_to_le_bytes(len));
            assert(bytes.subrange(20, 20 + len) == payload);
        },
        MessageView::Bad => {
            assert(bytes.subrange(0, 4) == spec_u32_to_le_bytes(TAG_BAD));
        },
    }
}

/// Encoding inverts decoding: bytes that decode to a message are the
/// encoding of that message, and of no other.
pub proof fn law_encode_after_decode(bytes: Seq<u8>, msg: MessageView)
    requires
        spec_decode(bytes) == Ok::<MessageView, DecodeError>(msg),
    ensures
        spec_encode(msg) == bytes,
{
    lemma_auto_spec_u32_to_from_le_bytes();
    lemma_auto_spec_u64_to_from_le_bytes();
    let tag = bytes.subrange(0, 4);
    assert(spec_u32_to_le_bytes(spec_u32_from_le_bytes(tag)) == tag);
    match msg {
        MessageView::Good { seq, payload } => {
            let seq_bytes = bytes.subrange(4, 12);
            let len_bytes = bytes.subrange(12, 20);
            assert(spec_u64_to_le_bytes(spec_u64_from_le_bytes(seq_bytes)) == seq_bytes);
            assert(spec_u64_to_le_bytes(spec_u64_from_le_bytes(len_bytes)) == len_bytes);
            assert(payload.len() == bytes.len() - 20);
            assert(tag + seq_bytes + len_bytes + payload =~= bytes);
        },
        MessageView::Bad => {
            assert(tag =~= bytes);
        },
    }
}

/// No encoding of a message is the start of a longer one: a message
/// followed by further bytes is refused.
pub proof fn law_trailing_bytes_are_refused(msg: MessageView, rest: Seq<u8>)
    requires
        msg matches MessageView::Good { payload, .. } ==> payload.len() <= u64::MAX,
        rest.len() > 0,
    ensures
        spec_decode(spec_encode(msg) + rest) == Err::<MessageView, DecodeError>(
            DecodeError::TrailingBytes,
        ),
{
    lemma_auto_spec_u32_to_from_le_bytes();
    lemma_auto_spec_u64_to_from_le_bytes();
    let bytes = spec_encode(msg) + rest;
    match msg {
        MessageView::Good { seq, payload } => {
            let len = payload.len() as u64;
            assert(bytes.subrange(0, 4) == spec_u32_to_le_bytes(TAG_GOOD));
            assert(bytes.subrange(12, 20) == spec_u64_to_le_bytes(len));
        },
        MessageView::Bad => {
            assert(bytes.subrange(0, 4) == spec_u32_to_le_bytes(TAG_BAD));
        },
    }
}

/// Two messages with the same encoding are the same message.
pub proof fn law_encode_injective(a: MessageView, b: MessageView)
    requires
        a matches MessageView::Good { payload, .. } ==> payload.len() <= u64::MAX,
        b matches MessageView::Good { payload, .. } ==> payload.len() <= u64::MAX,
        spec_encode(a) == spec_encode(b),
    ensures
        a == b,
{
    law_decode_after_encode(a);
    law_decode_after_encode(b);
}

} // verus!
