//! The traffic of a simulation: what honest peers and attackers publish.
//!
//! An honest peer publishes `Good` messages with rising sequence numbers
//! and a payload pattern of its own. An attacker draws one of eight kinds
//! of message at random each time.

use crate::codec::{encode, spec_encode, MessageView, WireMessage};
use rand::rngs::StdRng;
use rand::Rng;
use rand::SeedableRng;
use vstd::bytes::{spec_u32_to_le_bytes, u32_to_le_bytes};
use vstd::prelude::*;

verus! {

#[verifier::external_type_specification]
#[verifier::external_body]
pub struct ExStdRng(StdRng);

/// Calls `rand::SeedableRng::seed_from_u64` for `rand::rngs::StdRng`.
/// A generator is opaque here, so nothing is said of it.
#[verifier::external_body]
fn rng_from_seed(seed: u64) -> StdRng {
    StdRng::seed_from_u64(seed)
}

/// Calls `rand::Rng::gen_range` on the inclusive range from `low` to
/// `high`, which panics if the range is empty and returns a number within
/// the range otherwise.
#[verifier::external_body]
fn rng_range(rng: &mut StdRng, low: usize, high: usize) -> (n: usize)
    requires
        low <= high,
    ensures
        low <= n <= high,
{
    rng.gen_range(low..=high)
}

/// Calls `rand::Rng::fill` on the bytes of `buf`, which overwrites them in
/// place.
#[verifier::external_body]
fn rng_fill(rng: &mut StdRng, buf: &mut Vec<u8>)
    ensures
        final(buf)@.len() == old(buf)@.len(),
{
    rng.fill(&mut buf[..])
}

/// Payload length of an honest message.
pub const HONEST_PAYLOAD_LEN: usize = 100;

/// Number of kinds of attack message.
pub const SPAM_KINDS: usize = 8;

/// Random bytes of up to half the size limit.
pub const SPAM_JUNK: usize = 0;

/// A `Good` message with a payload of the size limit or more.
pub const SPAM_OVERSIZE: usize = 1;

/// A `Good` message without payload.
pub const SPAM_EMPTY: usize = 2;

/// A `Bad` message.
pub const SPAM_MALICIOUS: usize = 3;

/// A `Good` message whose sequence number is five behind.
pub const SPAM_REPLAY: usize = 4;

/// A `Good` message with a broken tag.
pub const SPAM_CORRUPT: usize = 5;

/// A `Good` message whose sequence number is one behind.
pub const SPAM_STALE: usize = 6;

/// Random bytes, twenty at most.
pub const SPAM_SHORT_JUNK: usize = 7;

/// Byte `j` of the payload pattern of `node` at sequence number `seq`.
pub open spec fn pattern_byte(node: usize, seq: u64, j: int) -> u8 {
    ((node + j + seq) % 256) as u8
}

/// The payload pattern of `node` at sequence number `seq`, `len` bytes long.
pub open spec fn pattern(node: usize, seq: u64, len: nat) -> Seq<u8> {
    Seq::new(len, |j: int| pattern_byte(node, seq, j))
}

/// `len` copies of `byte`.
pub open spec fn filler(byte: u8, len: nat) -> Seq<u8> {
    Seq::new(len, |j: int| byte)
}

/// The low 32 bits of a node index, little-endian.
pub open spec fn node_mark(node: usize) -> Seq<u8> {
    spec_u32_to_le_bytes((node as int % 0x1_0000_0000) as u32)
}

/// `seq - back`, or zero if that is below zero.
pub open spec fn behind(seq: u64, back: u64) -> u64 {
    if seq >= back {
        (seq - back) as u64
    } else {
        0
    }
}

/// The first two bytes of `bytes` replaced by `ff fe`, if `bytes` is
/// longer than four bytes.
pub open spec fn corrupted(bytes: Seq<u8>) -> Seq<u8> {
    if bytes.len() > 4 {
        bytes.update(0, 0xff).update(1, 0xfe)
    } else {
        bytes
    }
}

/// What an honest node publishes at sequence number `seq`.
pub open spec fn honest_bytes(node: usize, seq: u64) -> Seq<u8> {
    spec_encode(MessageView::Good { seq, payload: pattern(node, seq, HONEST_PAYLOAD_LEN as nat) })
}

/// What an attacker publishes at sequence number `seq` when it has drawn
/// `kind`, the length `length` and the random bytes `noise`.
pub open spec fn spam_bytes(kind: usize, node: usize, seq: u64, length: nat, noise: Seq<u8>) -> Seq<
    u8,
> {
    if kind == SPAM_OVERSIZE {
        spec_encode(MessageView::Good { seq, payload: pattern(node, seq, length) })
    } else if kind == SPAM_EMPTY {
        spec_encode(MessageView::Good { seq, payload: Seq::empty() })
    } else if kind == SPAM_MALICIOUS {
        spec_encode(MessageView::Bad)
    } else if kind == SPAM_REPLAY {
        spec_encode(
            MessageView::Good { seq: behind(seq, 5), payload: filler(1, 50) + node_mark(node) },
        )
    } else if kind == SPAM_CORRUPT {
        corrupted(spec_encode(MessageView::Good { seq, payload: filler(0xff, 20) }))
    } else if kind == SPAM_STALE {
        spec_encode(
            MessageView::Good { seq: behind(seq, 1), payload: filler(2, 30) + node_mark(node) },
        )
    } else {
        noise
    }
}

/// Whether an attacker may draw `length` and `noise` with `kind` under
/// the size limit `max_bytes`.
pub open spec fn drawable(kind: usize, length: nat, noise: Seq<u8>, max_bytes: usize) -> bool {
    &&& kind < SPAM_KINDS
    &&& kind == SPAM_JUNK ==> 1 <= noise.len() <= max_bytes / 2
    &&& kind == SPAM_OVERSIZE ==> max_bytes <= length <= 2 * max_bytes
    &&& kind == SPAM_SHORT_JUNK ==> 1 <= noise.len() <= 20
}

/// A traffic generator seeded with `seed`.
pub fn generator(seed: u64) -> StdRng {
    rng_from_seed(seed)
}

/// The payload pattern of `node` at sequence number `seq`.
pub fn pattern_payload(node: usize, seq: u64, len: usize) -> (payload: Vec<u8>)
    ensures
        payload@ == pattern(node, seq, len as nat),
{
    let base: u64 = (node as u64 % 256 + seq % 256) % 256;
    let mut payload: Vec<u8> = Vec::with_capacity(len);
    let mut j: usize = 0;
    while j < len
        invariant
            j <= len,
            base == (node + seq) % 256,
            payload@ == pattern(node, seq, j as nat),
        decreases len - j,
    {
        let byte: u8 = ((base + j as u64 % 256) % 256) as u8;
        assert(byte == pattern_byte(node, seq, j as int));
        payload.push(byte);
        assert(payload@ =~= pattern(node, seq, (j + 1) as nat));
        j += 1;
    }
    payload
}

/// `len` copies of `byte`, followed by the mark of `node`.
pub fn marked_payload(byte: u8, len: usize, node: usize) -> (payload: Vec<u8>)
    ensures
        payload@ == filler(byte, len as nat) + node_mark(node),
{
    let mut payload: Vec<u8> = Vec::new();
    let mut j: usize = 0;
    while j < len
        invariant
            j <= len,
            payload@ == filler(byte, j as nat),
        decreases len - j,
    {
        payload.push(byte);
        assert(payload@ =~= filler(byte, (j + 1) as nat));
        j += 1;
    }
    let mut mark = u32_to_le_bytes((node as u64 % 0x1_0000_0000) as u32);
    payload.append(&mut mark);
    payload
}

/// What an honest node publishes at sequence number `seq`.
pub fn honest_message(node: usize, seq: u64) -> (bytes: Vec<u8>)
    ensures
        bytes@ == honest_bytes(node, seq),
{
    let payload = pattern_payload(node, seq, HONEST_PAYLOAD_LEN);
    encode(&WireMessage::Good { seq, payload })
}

/// What an attacker publishes at sequence number `seq` when it has drawn
/// `kind`, the length `length` and the random bytes `noise`.
pub fn spam_message(kind: usize, node: usize, seq: u64, length: usize, noise: Vec<u8>) -> (bytes:
    Vec<u8>)
    ensures
        bytes@ == spam_bytes(kind, node, seq, length as nat, noise@),
{
    if kind == SPAM_OVERSIZE {
        let payload = pattern_payload(node, seq, length);
        encode(&WireMessage::Good { seq, payload })
    } else if kind == SPAM_EMPTY {
        encode(&WireMessage::Good { seq, payload: Vec::new() })
    } else if kind == SPAM_MALICIOUS {
        encode(&WireMessage::Bad)
    } else if kind == SPAM_REPLAY {
        let old_seq: u64 = if seq >= 5 {
            seq - 5
        } else {
            0
        };
        encode(&WireMessage::Good { seq: old_seq, payload: marked_payload(1, 50, node) })
    } else if kind == SPAM_CORRUPT {
        let mut payload: Vec<u8> = Vec::new();
        let mut j: usize = 0;
        while j < 20
            invariant
                j <= 20,
                payload@ == filler(0xff, j as nat),
            decreases 20 - j,
        {
            payload.push(0xff);
            assert(payload@ =~= filler(0xff, (j + 1) as nat));
            j += 1;
        }
        let mut bytes = encode(&WireMessage::Good { seq, payload });
        if bytes.len() > 4 {
            bytes.set(0, 0xff);
            bytes.set(1, 0xfe);
        }
        bytes
    } else if kind == SPAM_STALE {
        let old_seq: u64 = if seq >= 1 {
            seq - 1
        } else {
            0
        };
        encode(&WireMessage::Good { seq: old_seq, payload: marked_payload(2, 30, node) })
    } else {
        noise
    }
}

/// Whether an attacker can draw a message under the size limit
/// `max_bytes`: there is a junk length from one to half the limit, and
/// twice the limit is a length.
pub open spec fn can_draw(max_bytes: usize) -> bool {
    2 <= max_bytes <= usize::MAX / 2
}

/// Draws the next message of an attacker: a kind, then the length or the
/// random bytes that the kind calls for.
pub fn draw_spam(rng: &mut StdRng, node: usize, seq: u64, max_bytes: usize) -> (bytes: Vec<u8>)
    requires
        can_draw(max_bytes),
    ensures
        exists|kind: usize, length: nat, noise: Seq<u8>|
            drawable(kind, length, noise, max_bytes) && bytes@ == #[trigger] spam_bytes(
                kind,
                node,
                seq,
                length,
                noise,
            ),
{
    let kind = rng_range(rng, 0, SPAM_KINDS - 1);
    if kind == SPAM_JUNK {
        let len = rng_range(rng, 1, max_bytes / 2);
        let mut junk: Vec<u8> = vec![0u8; len];
        rng_fill(rng, &mut junk);
        let ghost noise = junk@;
        let bytes = spam_message(kind, node, seq, 0, junk);
        assert(drawable(kind, 0, noise, max_bytes) && bytes@ == spam_bytes(
            kind,
            node,
            seq,
            0,
            noise,
        ));
        bytes
    } else if kind == SPAM_OVERSIZE {
        let length = rng_range(rng, max_bytes, max_bytes * 2);
        let bytes = spam_message(kind, node, seq, length, Vec::new());
        assert(drawable(kind, length as nat, Seq::<u8>::empty(), max_bytes) && bytes@
            == spam_bytes(kind, node, seq, length as nat, Seq::<u8>::empty()));
        bytes
    } else if kind == SPAM_SHORT_JUNK {
        let len = rng_range(rng, 1, 20);
        let mut junk: Vec<u8> = vec![0u8; len];
        rng_fill(rng, &mut junk);
        let ghost noise = junk@;
        let bytes = spam_message(kind, node, seq, 0, junk);
        assert(drawable(kind, 0, noise, max_bytes) && bytes@ == spam_bytes(
            kind,
            node,
            seq,
            0,
            noise,
        ));
        bytes
    } else {
        let bytes = spam_message(kind, node, seq, 0, Vec::new());
        assert(drawable(kind, 0, Seq::<u8>::empty(), max_bytes) && bytes@ == spam_bytes(
            kind,
            node,
            seq,
            0,
            Seq::<u8>::empty(),
        ));
        bytes
    }
}

/// The next message of a node: that of an honest node, or one drawn by an
/// attacker. None if the node is an attacker and the size limit leaves no
/// room to draw.
pub fn next_message(rng: &mut StdRng, is_bad: bool, node: usize, seq: u64, max_bytes: usize) -> (next:
    Option<Vec<u8>>)
    ensures
        next is None <==> is_bad && !can_draw(max_bytes),
        !is_bad ==> (next matches Some(bytes) && bytes@ == honest_bytes(node, seq)),
        is_bad && can_draw(max_bytes) ==> (next matches Some(bytes) && exists|
            kind: usize,
            length: nat,
            noise: Seq<u8>,
        |
            drawable(kind, length, noise, max_bytes) && bytes@ == #[trigger] spam_bytes(
                kind,
                node,
                seq,
                length,
                noise,
            )),
{
    if !is_bad {
        Some(honest_message(node, seq))
    } else if 2 <= max_bytes && max_bytes <= usize::MAX / 2 {
        Some(draw_spam(rng, node, seq, max_bytes))
    } else {
        None
    }
}

/// An oversize attack message is over the size limit.
pub proof fn law_oversize_spam_is_oversize(node: usize, seq: u64, length: nat, max_bytes: usize)
    requires
        max_bytes <= length,
    ensures
        spam_bytes(SPAM_OVERSIZE, node, seq, length, Seq::empty()).len() > max_bytes,
{
    vstd::bytes::lemma_auto_spec_u32_to_from_le_bytes();
    vstd::bytes::lemma_auto_spec_u64_to_from_le_bytes();
}

} // verus!
