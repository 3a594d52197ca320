//! Best-effort text decoding of raw record bodies. Invalid byte sequences are
//! replaced, never rejected; the decoded text is both the dedup key and the
//! `text` column of a row.

use vstd::prelude::*;

verus! {

/// The characters that best-effort UTF-8 decoding assigns to a byte sequence
/// (invalid sequences replaced with U+FFFD). Left unspecified: the result is a
/// function of the input bytes alone.
pub uninterp spec fn lossy_utf8_of(bytes: Seq<u8>) -> Seq<char>;

/// Relies on std's `String::from_utf8_lossy`: decodes the bytes as UTF-8,
/// replacing invalid sequences with the replacement character; the result
/// depends on the bytes alone, and valid UTF-8 comes back as the very
/// characters it encodes.
#[verifier::external_body]
pub(crate) fn decode_text(bytes: &[u8]) -> (r: String)
    ensures
        r@ == lossy_utf8_of(bytes@),
        vstd::utf8::valid_utf8(bytes@) ==> r@ == vstd::utf8::decode_utf8(bytes@),
{
    String::from_utf8_lossy(bytes).into_owned()
}

/// Law: decoding is idempotent — running the best-effort decoder over the
/// UTF-8 bytes of already decoded text hands that text back unchanged.
pub fn redecode(text: &str) -> (r: String)
    ensures
        r@ == text@,
{
    proof {
        vstd::utf8::encode_utf8_valid_utf8(text@);
        vstd::utf8::encode_utf8_decode_utf8(text@);
    }
    decode_text(text.as_bytes())
}

} // verus!
