//! Content hashes of messages.
//!
//! A message is identified by the SHA-256 digest of a fixed tag followed by
//! its bytes. The tag keeps these digests apart from other hashes that the
//! overlay computes over the same bytes.

use sha2::{Digest, Sha256};
use vstd::prelude::*;

verus! {

/// Length of a content hash, in bytes.
pub const DIGEST_LEN: usize = 32;

/// Length of the domain tag, in bytes.
pub const DOMAIN_TAG_LEN: usize = 15;

/// The ASCII string `gossipsub-v1.1:`.
pub const DOMAIN_TAG: [u8; 15] = [
    0x67, 0x6f, 0x73, 0x73, 0x69, 0x70, 0x73, 0x75, 0x62, 0x2d, 0x76, 0x31, 0x2e, 0x31, 0x3a,
];

/// The SHA-256 digest of a byte string.
pub uninterp spec fn sha256(data: Seq<u8>) -> Seq<u8>;

/// Calls `<sha2::Sha256 as sha2::Digest>::digest`. The contract gives the
/// digest of `data` the name `sha256(data@)`; that it is 32 bytes long
/// follows from the type.
#[verifier::external_body]
fn sha256_digest(data: &[u8]) -> (out: [u8; 32])
    ensures
        out@ == sha256(data@),
{
    Sha256::digest(data).into()
}

/// The lower-case hexadecimal digit for a number from 0 to 15.
pub open spec fn hex_digit(n: int) -> char {
    seq!['0', '1', '2', '3', '4', '5', '6', '7', '8', '9', 'a', 'b', 'c', 'd', 'e', 'f'][n]
}

/// Lower-case hexadecimal text of a byte string: two digits per byte, the
/// high half first.
pub open spec fn hex_lower(data: Seq<u8>) -> Seq<char> {
    Seq::new(
        2 * data.len(),
        |i: int|
            if i % 2 == 0 {
                hex_digit(data[i / 2] as int / 16)
            } else {
                hex_digit(data[i / 2] as int % 16)
            },
    )
}

/// Calls `hex::encode`, which writes each byte as two lower-case
/// hexadecimal digits.
#[verifier::external_body]
fn hex_encode(data: &[u8]) -> (text: String)
    ensures
        text@ == hex_lower(data@),
{
    hex::encode(data)
}

/// The bytes that are hashed for a message: the domain tag, then the message.
pub open spec fn tagged(bytes: Seq<u8>) -> Seq<u8> {
    DOMAIN_TAG@ + bytes
}

/// The content hash of a message.
pub open spec fn content_hash(bytes: Seq<u8>) -> Seq<u8> {
    sha256(tagged(bytes))
}

/// Computes the content hash of a message.
pub fn dedupe_key(bytes: &[u8]) -> (key: [u8; 32])
    ensures
        key@ == content_hash(bytes@),
{
    let mut buf: Vec<u8> = Vec::new();
    let mut i: usize = 0;
    while i < DOMAIN_TAG_LEN
        invariant
            i <= DOMAIN_TAG_LEN,
            buf@ == DOMAIN_TAG@.subrange(0, i as int),
        decreases DOMAIN_TAG_LEN - i,
    {
        buf.push(DOMAIN_TAG[i]);
        i += 1;
    }
    assert(DOMAIN_TAG@.subrange(0, DOMAIN_TAG_LEN as int) == DOMAIN_TAG@);
    let n = bytes.len();
    let mut j: usize = 0;
    while j < n
        invariant
            n == bytes@.len(),
            j <= n,
            buf@ == DOMAIN_TAG@ + bytes@.subrange(0, j as int),
        decreases n - j,
    {
        buf.push(bytes[j]);
        j += 1;
    }
    assert(bytes@.subrange(0, n as int) == bytes@);
    sha256_digest(buf.as_slice())
}

/// The identifier under which the overlay knows a message: its content
/// hash in lower-case hexadecimal.
pub fn message_id(data: &[u8]) -> (id: String)
    ensures
        id@ == hex_lower(content_hash(data@)),
{
    let key = dedupe_key(data);
    hex_encode(key.as_slice())
}

/// Whether two content hashes are the same.
pub fn same_key(a: &[u8; 32], b: &[u8; 32]) -> (same: bool)
    ensures
        same == (a@ == b@),
{
    let mut i: usize = 0;
    while i < DIGEST_LEN
        invariant
            i <= DIGEST_LEN,
            forall|k: int| 0 <= k < i ==> a@[k] == b@[k],
        decreases DIGEST_LEN - i,
    {
        if a[i] != b[i] {
            return false;
        }
        i += 1;
    }
    assert(a@ =~= b@);
    true
}

} // verus!
