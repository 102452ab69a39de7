//! Conversions between byte strings and Rust `String`s.
//!
//! The protocol logic works on bytes; a `String` is produced only where a caller expects text.
//! Two standard-library conversions are used for that, each behind a small trusted wrapper.
use vstd::prelude::*;

verus! {

/// The text `String::from_utf8_lossy` makes of a byte string: the decoded text when the bytes
/// are valid UTF-8, otherwise with each invalid sequence replaced by U+FFFD.
pub uninterp spec fn utf8_lossy(b: Seq<u8>) -> Seq<char>;

/// Wraps `String::from_utf8_lossy` (std). Trusted: the result is `utf8_lossy` of the bytes, and,
/// as std documents, exactly the decoded text when the bytes are valid UTF-8. How invalid
/// sequences are replaced is left to the name.
#[verifier::external_body]
pub fn lossy_string(b: &[u8]) -> (s: String)
    ensures
        s@ == utf8_lossy(b@),
        vstd::utf8::valid_utf8(b@) ==> s@ == vstd::utf8::decode_utf8(b@),
{
    String::from_utf8_lossy(b).into_owned()
}

/// Wraps `String::from_utf8` (std). Trusted: it succeeds exactly on valid UTF-8, and then the
/// string's UTF-8 encoding is the input bytes.
#[verifier::external_body]
pub fn string_from_utf8(v: Vec<u8>) -> (r: Option<String>)
    ensures
        r is Some <==> vstd::utf8::valid_utf8(v@),
        r matches Some(s) ==> vstd::utf8::encode_utf8(s@) == v@,
{
    String::from_utf8(v).ok()
}

/// What `str::to_lowercase` (std) makes of a text: full Unicode lower-casing.
pub uninterp spec fn unicode_lower(s: Seq<char>) -> Seq<char>;

/// Wraps `str::to_lowercase` (std). Trusted: the result is `unicode_lower` of the text, which
/// std's Unicode case tables fix for every text; which mapping each character takes is left to
/// the name.
#[verifier::external_body]
pub fn to_lowercase(s: &str) -> (r: String)
    ensures
        r@ == unicode_lower(s@),
{
    s.to_lowercase()
}

/// ASCII bytes as text, character for byte.
pub fn ascii_string(v: Vec<u8>) -> (r: String)
    requires
        forall|j: int| 0 <= j < v@.len() ==> v@[j] < 128,
    ensures
        crate::bytes::utf8(r@) == v@,
{
    proof {
        let c = v@.map_values(|b: u8| b as char);
        assert(vstd::utf8::is_ascii_chars(c));
        vstd::utf8::is_ascii_chars_encode_utf8(c);
        assert(vstd::utf8::encode_utf8(c) =~= v@);
        vstd::utf8::encode_utf8_valid_utf8(c);
        vstd::utf8::encode_utf8_decode_utf8(c);
    }
    lossy_string(v.as_slice())
}

} // verus!
