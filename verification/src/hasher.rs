//! Content digests: a byte buffer is identified by its 256-bit digest,
//! rendered as a lowercase hexadecimal string, or by the 16-character
//! prefix of that rendering.

use vstd::prelude::*;
use sha2::Digest;

verus! {

/// Byte `i` of the 256-bit content digest of `data`.  The digest is a pure
/// function of `data` alone; only the hash implementation knows its value.
pub uninterp spec fn sha256_byte(data: Seq<u8>, i: int) -> u8;

/// The 32-byte content digest of `data`.
pub open spec fn sha256_bytes(data: Seq<u8>) -> Seq<u8> {
    Seq::new(32, |i: int| sha256_byte(data, i))
}

/// The lowercase hexadecimal character for the nibble `v`.
pub open spec fn hex_digit(v: u8) -> char
    recommends
        v < 16,
{
    if v < 10 {
        ((v + 48) as u8) as char
    } else {
        ((v + 87) as u8) as char
    }
}

/// The lowercase hexadecimal rendering of a byte sequence: two characters
/// per byte, high nibble first.
pub open spec fn hex_of(bytes: Seq<u8>) -> Seq<char> {
    Seq::new(2 * bytes.len(), |i: int| {
        if i % 2 == 0 {
            hex_digit(bytes[i / 2] >> 4)
        } else {
            hex_digit(bytes[i / 2] & 0xf)
        }
    })
}

/// The full digest string of a byte buffer: 64 lowercase hex characters.
pub open spec fn digest_chars(data: Seq<u8>) -> Seq<char> {
    hex_of(sha256_bytes(data))
}

/// Whether `c` is a lowercase hexadecimal character.
pub open spec fn is_hex_char(c: char) -> bool {
    ('0' <= c && c <= '9') || ('a' <= c && c <= 'f')
}

/// Relies on `sha2::Sha256::digest`: the SHA-256 digest is 32 bytes and
/// depends on the input bytes alone.
#[verifier::external_body]
fn sha256(data: &[u8]) -> (r: Vec<u8>)
    ensures
        r@.len() == 32,
        forall|i: int| 0 <= i < 32 ==> r@[i] == sha256_byte(data@, i),
        r@ == sha256_bytes(data@),
{
    sha2::Sha256::digest(data).to_vec()
}

/// Relies on `hex::encode`: each input byte becomes two lowercase
/// hexadecimal characters, high nibble first.
#[verifier::external_body]
fn hex_encode(data: &[u8]) -> (r: String)
    ensures
        r@ == hex_of(data@),
{
    hex::encode(data)
}

/// Every character of a hexadecimal rendering is a lowercase hex digit.
pub proof fn lemma_hex_of_chars(bytes: Seq<u8>)
    ensures
        hex_of(bytes).len() == 2 * bytes.len(),
        forall|i: int| 0 <= i < 2 * bytes.len() ==> is_hex_char(#[trigger] hex_of(bytes)[i]),
{
    assert forall|i: int| 0 <= i < 2 * bytes.len() implies is_hex_char(
        #[trigger] hex_of(bytes)[i],
    ) by {
        let b = bytes[i / 2];
        let v = if i % 2 == 0 {
            b >> 4
        } else {
            b & 0xf
        };
        assert((b >> 4) < 16 && (b & 0xf) < 16) by (bit_vector);
        assert(v < 16);
    }
}

/// A hexadecimal rendering of a prefix is the prefix of the rendering:
/// the first `2 * n` characters of `hex_of(bytes)` render the first `n`
/// bytes of `bytes`.
pub proof fn lemma_hex_of_take(bytes: Seq<u8>, n: int)
    requires
        0 <= n <= bytes.len(),
    ensures
        hex_of(bytes.take(n)) == hex_of(bytes).take(2 * n),
{
    assert(hex_of(bytes.take(n)) =~= hex_of(bytes).take(2 * n));
}

/// The digest string of any byte buffer has exactly 64 characters, all of
/// them lowercase hexadecimal, and the short digest string is exactly its
/// first 16 characters.
pub proof fn lemma_digest_shape(data: Seq<u8>)
    ensures
        digest_chars(data).len() == 64,
        forall|i: int| 0 <= i < 64 ==> is_hex_char(#[trigger] digest_chars(data)[i]),
        hex_of(sha256_bytes(data).take(8)) == digest_chars(data).take(16),
{
    lemma_hex_of_chars(sha256_bytes(data));
    lemma_hex_of_take(sha256_bytes(data), 8);
}

/// Computes the content digest of `data` as a 64-character lowercase
/// hexadecimal string.  Pure and deterministic: the result is a function
/// of `data` alone, and the call never fails, even on an empty buffer.
pub fn calculate_hash(data: &[u8]) -> (r: String)
    ensures
        r@ == digest_chars(data@),
        r@.len() == 64,
{
    let digest = sha256(data);
    hex_encode(digest.as_slice())
}

/// Computes the first 16 characters of `calculate_hash(data)`, a shortened
/// content identifier convenient as a filename fragment.
pub fn calculate_hash_short(data: &[u8]) -> (r: String)
    ensures
        r@ == digest_chars(data@).take(16),
        r@.len() == 16,
{
    let digest = sha256(data);
    let mut prefix: Vec<u8> = Vec::new();
    let mut i: usize = 0;
    while i < 8
        invariant
            prefix@ =~= digest@.take(i as int),
            i <= 8,
            digest@.len() == 32,
        decreases 8 - i,
    {
        prefix.push(digest[i]);
        i = i + 1;
    }
    proof {
        lemma_hex_of_take(sha256_bytes(data@), 8);
    }
    hex_encode(prefix.as_slice())
}

} // verus!
