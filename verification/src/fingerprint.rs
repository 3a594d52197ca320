//! Content fingerprinting: a fixed 256-bit digest of the raw body bytes,
//! rendered as lowercase hex. The digest labels archived rows; it plays no
//! part in deduplication.

use rustc_serialize::hex::ToHex;
use sha3::Digest;
use vstd::prelude::*;

verus! {

/// The digest that SHA3-256 assigns to a byte sequence. Left unspecified: the
/// algorithm is not restated here, only that the result is a function of the
/// input bytes alone.
pub uninterp spec fn sha3_256_of(bytes: Seq<u8>) -> Seq<u8>;

/// The lowercase hex digit for a value below sixteen.
pub open spec fn hex_digit(v: int) -> char {
    if v == 0 {
        '0'
    } else if v == 1 {
        '1'
    } else if v == 2 {
        '2'
    } else if v == 3 {
        '3'
    } else if v == 4 {
        '4'
    } else if v == 5 {
        '5'
    } else if v == 6 {
        '6'
    } else if v == 7 {
        '7'
    } else if v == 8 {
        '8'
    } else if v == 9 {
        '9'
    } else if v == 10 {
        'a'
    } else if v == 11 {
        'b'
    } else if v == 12 {
        'c'
    } else if v == 13 {
        'd'
    } else if v == 14 {
        'e'
    } else {
        'f'
    }
}

/// Lowercase hex encoding of a byte sequence: two digits per byte, high
/// nibble first.
pub open spec fn hex_of(bytes: Seq<u8>) -> Seq<char>
    decreases bytes.len(),
{
    if bytes.len() == 0 {
        Seq::<char>::empty()
    } else {
        seq![
            hex_digit(bytes.first() as int / 16),
            hex_digit(bytes.first() as int % 16),
        ] + hex_of(bytes.drop_first())
    }
}

pub proof fn lemma_hex_of_len(bytes: Seq<u8>)
    ensures
        hex_of(bytes).len() == 2 * bytes.len(),
    decreases bytes.len(),
{
    if bytes.len() > 0 {
        lemma_hex_of_len(bytes.drop_first());
    }
}

/// Relies on sha3's `Sha3_256`: the digest is a function of the input bytes
/// alone, and its output size is 32 bytes (256 bits).
#[verifier::external_body]
fn sha3_256_digest(bytes: &[u8]) -> (r: Vec<u8>)
    ensures
        r@ == sha3_256_of(bytes@),
        r@.len() == 32,
{
    sha3::Sha3_256::digest(bytes).to_vec()
}

/// Relies on rustc-serialize's `ToHex for [u8]`: two lowercase hex digits per
/// byte, high nibble first.
#[verifier::external_body]
fn hex_encode(bytes: &[u8]) -> (r: String)
    ensures
        r@ == hex_of(bytes@),
{
    bytes.to_hex()
}

/// The fingerprint column of an export row: lowercase hex of the SHA3-256
/// digest of the raw body bytes.
pub open spec fn fingerprint_of(bytes: Seq<u8>) -> Seq<char> {
    hex_of(sha3_256_of(bytes))
}

/// Computes the archival fingerprint of a raw body: 64 lowercase hex
/// characters covering its 256-bit digest.
pub fn fingerprint_hex(bytes: &[u8]) -> (r: String)
    ensures
        r@ == fingerprint_of(bytes@),
        r@.len() == 64,
{
    let digest = sha3_256_digest(bytes);
    proof {
        lemma_hex_of_len(digest@);
    }
    hex_encode(digest.as_slice())
}

} // verus!
