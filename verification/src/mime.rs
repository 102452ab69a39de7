//! RFC 5322 / MIME (RFC 2045–2049) parsing.
//!
//! A stored RFC 5322 message is split into headers and body, headers are unfolded, a
//! `multipart/*` body is split on its boundary and each part classified with
//! type/subtype/params/encoding/size. The IMAP layer projects the result as ENVELOPE and
//! BODYSTRUCTURE; SEARCH and section fetches read the same pieces.
//!
//! The i18n surface is total on every input: RFC 2047 encoded-words in both directions,
//! Content-Transfer-Encoding decoding (base64, quoted-printable), and charset decoding for UTF-8,
//! US-ASCII and ISO-8859-1 with an honest "encoding problem" flag for anything else.
use vstd::prelude::*;
use crate::bytes::{
    eq_ci, is_kw, is_lit, lit_vec, push_all, push_lit, slice_of, split_on, to_lower, to_vec, trim,
};
use crate::text::lossy_string;
pub use crate::date::{
    civil_from_days, format_internal_date, format_rfc5322_date, weekday_from_days, ymd_from_ms,
};

verus! {

// ---------------------------------------------------------------------------------------------
// Scanning helpers
// ---------------------------------------------------------------------------------------------

/// The first position at or after `i` holding byte `b`, or `s.len()` when there is none.
pub open spec fn next_byte(s: Seq<u8>, b: u8, i: int) -> int
    decreases s.len() - i,
{
    if i >= s.len() {
        s.len() as int
    } else if i >= 0 && s[i] == b {
        i
    } else {
        next_byte(s, b, i + 1)
    }
}

pub proof fn lemma_next_byte(s: Seq<u8>, b: u8, i: int)
    requires
        0 <= i <= s.len(),
    ensures
        i <= next_byte(s, b, i) <= s.len(),
        next_byte(s, b, i) < s.len() ==> s[next_byte(s, b, i)] == b,
        forall|k: int| i <= k < next_byte(s, b, i) ==> s[k] != b,
    decreases s.len() - i,
{
    if i < s.len() && s[i] != b {
        lemma_next_byte(s, b, i + 1);
    }
}

/// Position of the first `b` at or after `i` (or the length).
pub fn scan_to(s: &[u8], b: u8, i: usize) -> (r: usize)
    requires
        i <= s@.len(),
    ensures
        r == next_byte(s@, b, i as int),
{
    let mut k = i;
    while k < s.len() && s[k] != b
        invariant
            i <= k <= s@.len(),
            next_byte(s@, b, k as int) == next_byte(s@, b, i as int),
        decreases s@.len() - k,
    {
        k += 1;
    }
    k
}

/// Number of leading SP/TAB bytes.
pub open spec fn lead_wsp(s: Seq<u8>) -> nat
    decreases s.len(),
{
    if s.len() > 0 && crate::bytes::is_wsp(s[0]) { 1 + lead_wsp(s.drop_first()) } else { 0 }
}

/// Number of trailing SP/TAB bytes.
pub open spec fn trail_wsp(s: Seq<u8>) -> nat
    decreases s.len(),
{
    if s.len() > 0 && crate::bytes::is_wsp(s.last()) { 1 + trail_wsp(s.drop_last()) } else { 0 }
}

/// `s` without leading and trailing SP/TAB.
pub open spec fn trim_wsp_spec(s: Seq<u8>) -> Seq<u8> {
    let t = s.subrange(lead_wsp(s) as int, s.len() as int);
    t.subrange(0, t.len() - trail_wsp(t))
}

proof fn lemma_lead_wsp(s: Seq<u8>, i: int)
    requires
        0 <= i <= s.len(),
        forall|j: int| 0 <= j < i ==> crate::bytes::is_wsp(#[trigger] s[j]),
        i == s.len() || !crate::bytes::is_wsp(s[i]),
    ensures
        lead_wsp(s) == i,
    decreases i,
{
    if i > 0 {
        lemma_lead_wsp(s.drop_first(), i - 1);
    }
}

proof fn lemma_trail_wsp(s: Seq<u8>, k: int)
    requires
        0 <= k <= s.len(),
        forall|j: int| s.len() - k <= j < s.len() ==> crate::bytes::is_wsp(#[trigger] s[j]),
        k == s.len() || !crate::bytes::is_wsp(s[s.len() - k - 1]),
    ensures
        trail_wsp(s) == k,
    decreases k,
{
    if k > 0 {
        lemma_trail_wsp(s.drop_last(), k - 1);
    }
}

pub fn trim_wsp(s: &[u8]) -> (r: &[u8])
    ensures
        r@ == trim_wsp_spec(s@),
{
    let mut i: usize = 0;
    while i < s.len() && (s[i] == 32 || s[i] == 9)
        invariant
            i <= s@.len(),
            forall|j: int| 0 <= j < i ==> crate::bytes::is_wsp(#[trigger] s@[j]),
        decreases s@.len() - i,
    {
        i += 1;
    }
    proof {
        lemma_lead_wsp(s@, i as int);
    }
    let t = slice_of(s, i, s.len());
    let mut k: usize = 0;
    while k < t.len() && (t[t.len() - 1 - k] == 32 || t[t.len() - 1 - k] == 9)
        invariant
            k <= t@.len(),
            forall|j: int| t@.len() - k <= j < t@.len() ==> crate::bytes::is_wsp(#[trigger] t@[j]),
        decreases t@.len() - k,
    {
        k += 1;
    }
    proof {
        lemma_trail_wsp(t@, k as int);
    }
    slice_of(t, 0, t.len() - k)
}

/// Every byte is 7-bit ASCII.
pub open spec fn all_ascii(s: Seq<u8>) -> bool {
    forall|i: int| 0 <= i < s.len() ==> #[trigger] s[i] < 128
}

pub fn is_ascii_bytes(s: &[u8]) -> (r: bool)
    ensures
        r == all_ascii(s@),
{
    let mut i: usize = 0;
    while i < s.len()
        invariant
            i <= s@.len(),
            forall|j: int| 0 <= j < i ==> #[trigger] s@[j] < 128,
        decreases s@.len() - i,
    {
        if s[i] >= 128 {
            return false;
        }
        i += 1;
    }
    true
}

/// Number of LF bytes in `s`.
pub open spec fn count_nl(s: Seq<u8>) -> nat
    decreases s.len(),
{
    if s.len() == 0 {
        0
    } else {
        count_nl(s.drop_last()) + if s.last() == 10 { 1nat } else { 0nat }
    }
}

/// The IMAP `body-fld-lines` of a text part: the number of LF bytes, at least one for a
/// non-empty body, zero for an empty one.
pub open spec fn count_lines_spec(s: Seq<u8>) -> nat {
    if s.len() == 0 {
        0
    } else if count_nl(s) == 0 {
        1
    } else {
        count_nl(s)
    }
}

proof fn lemma_count_nl_le(s: Seq<u8>)
    ensures
        count_nl(s) <= s.len(),
    decreases s.len(),
{
    if s.len() > 0 {
        lemma_count_nl_le(s.drop_last());
    }
}

pub fn count_lines(body: &[u8]) -> (r: usize)
    ensures
        r == count_lines_spec(body@),
{
    if body.len() == 0 {
        return 0;
    }
    let mut n: usize = 0;
    let mut i: usize = 0;
    assert(body@.take(0) =~= Seq::<u8>::empty());
    while i < body.len()
        invariant
            i <= body@.len(),
            n == count_nl(body@.take(i as int)),
        decreases body@.len() - i,
    {
        assert(body@.take(i + 1).drop_last() =~= body@.take(i as int));
        proof {
            lemma_count_nl_le(body@.take(i as int));
        }
        if body[i] == 10 {
            n += 1;
        }
        i += 1;
    }
    assert(body@.take(i as int) =~= body@);
    if n == 0 {
        1
    } else {
        n
    }
}

// ---------------------------------------------------------------------------------------------
// Header / body split
// ---------------------------------------------------------------------------------------------

/// The position just past the first blank line (`LF LF` or `LF CR LF`) found at or after `i`,
/// or the length of `raw` when there is none.
pub open spec fn sep_from(raw: Seq<u8>, i: int) -> int
    decreases raw.len() - i,
{
    if i >= raw.len() {
        raw.len() as int
    } else if raw[i] == 10 && i + 1 < raw.len() && raw[i + 1] == 10 {
        i + 2
    } else if raw[i] == 10 && i + 2 < raw.len() && raw[i + 1] == 13 && raw[i + 2] == 10 {
        i + 3
    } else {
        sep_from(raw, i + 1)
    }
}

/// Where the body of a raw message begins.
pub open spec fn body_offset_spec(raw: Seq<u8>) -> int {
    sep_from(raw, 0)
}

pub proof fn lemma_sep_from_bounds(raw: Seq<u8>, i: int)
    requires
        0 <= i <= raw.len(),
    ensures
        i <= sep_from(raw, i) <= raw.len(),
    decreases raw.len() - i,
{
    if i < raw.len() {
        lemma_sep_from_bounds(raw, i + 1);
    }
}

/// The byte offset where the body begins: `raw[..body_offset]` is the header block (through the
/// blank-line terminator) and `raw[body_offset..]` is the body; `raw.len()` when there is no
/// blank line.
pub fn body_offset(raw: &[u8]) -> (r: usize)
    ensures
        r == body_offset_spec(raw@),
        r <= raw@.len(),
{
    proof {
        lemma_sep_from_bounds(raw@, 0);
    }
    let mut i: usize = 0;
    while i < raw.len()
        invariant
            i <= raw@.len(),
            sep_from(raw@, i as int) == body_offset_spec(raw@),
        decreases raw@.len() - i,
    {
        if raw[i] == 10 {
            if i + 1 < raw.len() && raw[i + 1] == 10 {
                return i + 2;
            }
            if raw.len() - i > 2 && raw[i + 1] == 13 && raw[i + 2] == 10 {
                return i + 3;
            }
        }
        i += 1;
    }
    raw.len()
}

/// Split a raw message into (header-block bytes, body bytes).
pub fn header_and_body(raw: &[u8]) -> (r: (Vec<u8>, Vec<u8>))
    ensures
        r.0@ == raw@.subrange(0, body_offset_spec(raw@)),
        r.1@ == raw@.subrange(body_offset_spec(raw@), raw@.len() as int),
        r.0@ + r.1@ == raw@,
{
    let s = body_offset(raw);
    let h = to_vec(slice_of(raw, 0, s));
    let b = to_vec(slice_of(raw, s, raw.len()));
    assert(h@ + b@ =~= raw@);
    (h, b)
}

// ---------------------------------------------------------------------------------------------
// Trust-boundary header strip
// ---------------------------------------------------------------------------------------------

/// Header names that are verdicts of the boundary that added them (Authentication-Results,
/// RFC 8601; the ARC set, RFC 8617) and must be removed before a gateway signs a message.
pub open spec fn is_trust_boundary_name(name: Seq<u8>) -> bool {
    ||| crate::bytes::eq_ci_spec(name, crate::bytes::lit("authentication-results"))
    ||| crate::bytes::eq_ci_spec(name, crate::bytes::lit("arc-seal"))
    ||| crate::bytes::eq_ci_spec(name, crate::bytes::lit("arc-message-signature"))
    ||| crate::bytes::eq_ci_spec(name, crate::bytes::lit("arc-authentication-results"))
}

/// The field name of a header line that has a colon, with ASCII white space trimmed on both
/// sides (as the header parser trims it, so the strip never matches more strictly than the
/// parser reads).
pub open spec fn line_field_name(content: Seq<u8>) -> Seq<u8> {
    crate::bytes::trim_spec(content.subrange(0, next_byte(content, 58, 0)))
}

/// The strip, from the line starting at `i`, given whether a real header line has been seen and
/// whether the field being read is one that is dropped. A line that starts with SP/TAB after a
/// header line is a continuation and follows its field; any other line decides anew: a
/// `name:` line is dropped exactly when its trimmed name is a trust-boundary name, and a line
/// without a colon is always kept.
pub open spec fn strip_tb_from(raw: Seq<u8>, i: int, seen: bool, dropping: bool) -> Seq<u8>
    decreases raw.len() - i,
{
    if i < 0 || i >= raw.len() {
        seq![]
    } else {
        proof {
            lemma_next_byte(raw, 10, i);
        }
        let j = next_byte(raw, 10, i);
        let line_end = if j < raw.len() { j + 1 } else { j };
        let content = raw.subrange(i, j);
        let is_cont = seen && content.len() > 0 && crate::bytes::is_wsp(content[0]);
        let has_colon = next_byte(content, 58, 0) < content.len();
        let seen2 = if is_cont { seen } else { seen || has_colon };
        let drop2 = if is_cont {
            dropping
        } else {
            has_colon && is_trust_boundary_name(line_field_name(content))
        };
        let kept = if drop2 { seq![] } else { raw.subrange(i, line_end) };
        kept + strip_tb_from(raw, line_end, seen2, drop2)
    }
}

fn is_trust_boundary(name: &[u8]) -> (r: bool)
    ensures
        r == is_trust_boundary_name(name@),
{
    is_kw(name, "authentication-results") || is_kw(name, "arc-seal") || is_kw(
        name,
        "arc-message-signature",
    ) || is_kw(name, "arc-authentication-results")
}

/// Strip every occurrence of a trust-boundary header, with its folded continuation lines, from
/// a raw header block, leaving every other byte untouched (no decoding, no re-folding, no
/// re-ordering).
pub fn strip_trust_boundary_headers(raw_headers: &[u8]) -> (r: Vec<u8>)
    ensures
        r@ == strip_tb_from(raw_headers@, 0, false, false),
{
    let mut out: Vec<u8> = Vec::new();
    let mut i: usize = 0;
    let mut dropping = false;
    let mut seen_header = false;
    while i < raw_headers.len()
        invariant
            i <= raw_headers@.len(),
            out@ + strip_tb_from(raw_headers@, i as int, seen_header, dropping) == strip_tb_from(
                raw_headers@,
                0,
                false,
                false,
            ),
        decreases raw_headers@.len() - i,
    {
        let ghost s = raw_headers@;
        let ghost (seen0, drop0) = (seen_header, dropping);
        let j = scan_to(raw_headers, 10, i);
        proof {
            lemma_next_byte(s, 10, i as int);
        }
        let line_end = if j < raw_headers.len() { j + 1 } else { j };
        let content = slice_of(raw_headers, i, j);
        let is_continuation = seen_header && content.len() > 0 && (content[0] == 32 || content[0]
            == 9);
        if !is_continuation {
            let colon = scan_to(content, 58, 0);
            if colon < content.len() {
                seen_header = true;
                let name = crate::bytes::trim(slice_of(content, 0, colon));
                dropping = is_trust_boundary(name);
            } else {
                dropping = false;
            }
        }
        if !dropping {
            let piece = slice_of(raw_headers, i, line_end);
            let ghost before = out@;
            push_all(&mut out, piece);
            assert(out@ + strip_tb_from(s, line_end as int, seen_header, dropping) =~= before + (
            piece@ + strip_tb_from(s, line_end as int, seen_header, dropping)));
        } else {
            assert(out@ + strip_tb_from(s, line_end as int, seen_header, dropping) =~= out@ + (
            seq![] + strip_tb_from(s, line_end as int, seen_header, dropping)));
        }
        assert(line_end > i);
        i = line_end;
    }
    assert(out@ + seq![] =~= out@);
    out
}


// ---------------------------------------------------------------------------------------------
// Transfer encodings (RFC 2045 §6)
// ---------------------------------------------------------------------------------------------

/// Value of a hexadecimal digit (either case).
pub open spec fn hex_digit(b: u8) -> Option<u8> {
    if 48 <= b <= 57 {
        Some((b - 48) as u8)
    } else if 65 <= b <= 70 {
        Some((b - 55) as u8)
    } else if 97 <= b <= 102 {
        Some((b - 87) as u8)
    } else {
        None
    }
}

pub fn hex_val(b: u8) -> (r: Option<u8>)
    ensures
        r == hex_digit(b),
{
    if 48 <= b && b <= 57 {
        Some(b - 48)
    } else if 65 <= b && b <= 70 {
        Some(b - 55)
    } else if 97 <= b && b <= 102 {
        Some(b - 87)
    } else {
        None
    }
}

/// Quoted-printable decode from position `i`: `=XX` hex escapes, soft line breaks (`=` before
/// CRLF or LF) removed, and any other `=` kept verbatim.
pub open spec fn qp_from(b: Seq<u8>, i: int) -> Seq<u8>
    decreases b.len() - i,
{
    if i < 0 || i >= b.len() {
        seq![]
    } else if b[i] != 61 {
        seq![b[i]] + qp_from(b, i + 1)
    } else if i + 2 < b.len() && b[i + 1] == 13 && b[i + 2] == 10 {
        qp_from(b, i + 3)
    } else if i + 1 < b.len() && b[i + 1] == 10 {
        qp_from(b, i + 2)
    } else if i + 2 < b.len() && hex_digit(b[i + 1]) is Some && hex_digit(b[i + 2]) is Some {
        seq![(hex_digit(b[i + 1]).unwrap() * 16 + hex_digit(b[i + 2]).unwrap()) as u8] + qp_from(
            b,
            i + 3,
        )
    } else {
        seq![61u8] + qp_from(b, i + 1)
    }
}

pub fn qp_decode(body: &[u8]) -> (r: Vec<u8>)
    ensures
        r@ == qp_from(body@, 0),
{
    let mut out: Vec<u8> = Vec::new();
    let mut i: usize = 0;
    while i < body.len()
        invariant
            i <= body@.len(),
            out@ + qp_from(body@, i as int) == qp_from(body@, 0),
        decreases body@.len() - i,
    {
        let ghost s = body@;
        let ghost before = out@;
        let b = body[i];
        if b != 61 {
            out.push(b);
            assert(before + qp_from(s, i as int) =~= out@ + qp_from(s, i + 1));
            i += 1;
            continue;
        }
        let n = body.len() - i;
        if n > 2 && body[i + 1] == 13 && body[i + 2] == 10 {
            i += 3;
        } else if n > 1 && body[i + 1] == 10 {
            i += 2;
        } else if n > 2 && hex_val(body[i + 1]).is_some() && hex_val(body[i + 2]).is_some() {
            let h = hex_val(body[i + 1]).unwrap();
            let l = hex_val(body[i + 2]).unwrap();
            out.push(h * 16 + l);
            assert(before + qp_from(s, i as int) =~= out@ + qp_from(s, i + 3));
            i += 3;
        } else {
            out.push(b);
            assert(before + qp_from(s, i as int) =~= out@ + qp_from(s, i + 1));
            i += 1;
        }
    }
    assert(out@ + seq![] =~= out@);
    out
}

/// Decode a Content-Transfer-Encoding label (trimmed, case-insensitive): `base64` decodes when
/// the text is valid base64 and otherwise keeps the raw body, `quoted-printable` decodes, and
/// every other label (the identity encodings) passes the body through.
pub open spec fn cte_spec(body: Seq<u8>, encoding: Seq<u8>) -> Seq<u8> {
    let e = crate::bytes::lower_seq(crate::bytes::trim_spec(encoding));
    if e == crate::bytes::lit("base64") {
        match crate::base64::b64_decode_spec(body) {
            Some(d) => d,
            None => body,
        }
    } else if e == crate::bytes::lit("quoted-printable") {
        qp_from(body, 0)
    } else {
        body
    }
}

/// Decode a Content-Transfer-Encoding: `base64` and `quoted-printable` are decoded, the
/// identity encodings pass through, and a malformed base64 body is returned as it was.
pub fn decode_transfer_encoding(body: &[u8], encoding: &str) -> (r: Vec<u8>)
    ensures
        r@ == cte_spec(body@, crate::bytes::lit(encoding)),
{
    decode_transfer_encoding_bytes(body, encoding.as_bytes())
}

/// [`decode_transfer_encoding`] with the label given as bytes.
pub fn decode_transfer_encoding_bytes(body: &[u8], encoding: &[u8]) -> (r: Vec<u8>)
    ensures
        r@ == cte_spec(body@, encoding@),
{
    let e = to_lower(trim(encoding));
    if is_lit(e.as_slice(), "base64") {
        match crate::base64::base64_decode_bytes(body) {
            Some(d) => d,
            None => to_vec(body),
        }
    } else if is_lit(e.as_slice(), "quoted-printable") {
        qp_decode(body)
    } else {
        to_vec(body)
    }
}

// ---------------------------------------------------------------------------------------------
// Charsets
// ---------------------------------------------------------------------------------------------

/// ISO-8859-1: byte `0xNN` is the scalar `U+00NN`.
pub open spec fn latin1(b: Seq<u8>) -> Seq<char> {
    b.map_values(|x: u8| x as char)
}

/// UTF-8 encoding of one Latin-1 byte.
pub open spec fn latin1_enc(x: u8) -> Seq<u8> {
    if x < 128 {
        seq![x]
    } else {
        seq![(0xC0u8 | (x >> 6u8)) as u8, (0x80u8 | (x & 0x3Fu8)) as u8]
    }
}

proof fn lemma_encode_push(cs: Seq<char>, c: char)
    ensures
        vstd::utf8::encode_utf8(cs.push(c)) == vstd::utf8::encode_utf8(cs) + vstd::utf8::encode_scalar(
            c as u32,
        ),
    decreases cs.len(),
{
    if cs.len() == 0 {
        assert(cs.push(c).drop_first() =~= Seq::<char>::empty());
        assert(cs.push(c)[0] == c);
        assert(vstd::utf8::encode_utf8(Seq::<char>::empty()) =~= Seq::<u8>::empty());
        assert(vstd::utf8::encode_utf8(cs) =~= Seq::<u8>::empty());
        assert(vstd::utf8::encode_utf8(cs.push(c)) =~= vstd::utf8::encode_scalar(c as u32));
    } else {
        lemma_encode_push(cs.drop_first(), c);
        assert(cs.push(c).drop_first() =~= cs.drop_first().push(c));
        assert(vstd::utf8::encode_utf8(cs.push(c)) =~= vstd::utf8::encode_scalar(cs[0] as u32) + (
        vstd::utf8::encode_utf8(cs.drop_first()) + vstd::utf8::encode_scalar(c as u32)));
    }
}

proof fn lemma_latin1_scalar(x: u8)
    ensures
        vstd::utf8::encode_scalar((x as char) as u32) == latin1_enc(x),
{
    let v = (x as char) as u32;
    assert(v == x as u32);
    if x < 128 {
        assert(vstd::utf8::has_width_1_encoding(v));
        assert(vstd::utf8::leading_byte_width_1(v) == x) by (bit_vector)
            requires
                v == x as u32,
                x < 128,
        ;
    } else {
        assert(!vstd::utf8::has_width_1_encoding(v));
        assert(vstd::utf8::has_width_2_encoding(v));
        assert(vstd::utf8::leading_byte_width_2(v) == (0xC0u8 | (x >> 6u8)) as u8) by (bit_vector)
            requires
                v == x as u32,
        ;
        assert(vstd::utf8::last_continuation_byte(v) == (0x80u8 | (x & 0x3Fu8)) as u8)
            by (bit_vector)
            requires
                v == x as u32,
        ;
    }
}

/// The UTF-8 bytes of the Latin-1 reading of a byte string.
pub fn latin1_utf8(b: &[u8]) -> (r: Vec<u8>)
    ensures
        r@ == vstd::utf8::encode_utf8(latin1(b@)),
{
    let mut out: Vec<u8> = Vec::new();
    let mut i: usize = 0;
    assert(latin1(b@.take(0)) =~= Seq::<char>::empty());
    while i < b.len()
        invariant
            i <= b@.len(),
            out@ == vstd::utf8::encode_utf8(latin1(b@.take(i as int))),
        decreases b@.len() - i,
    {
        let x = b[i];
        proof {
            assert(latin1(b@.take(i + 1)) =~= latin1(b@.take(i as int)).push(x as char));
            lemma_encode_push(latin1(b@.take(i as int)), x as char);
            lemma_latin1_scalar(x);
        }
        let ghost before = out@;
        if x < 128 {
            out.push(x);
            assert(out@ =~= before + latin1_enc(x));
        } else {
            out.push(0xC0u8 | (x >> 6u8));
            out.push(0x80u8 | (x & 0x3Fu8));
            assert(out@ =~= before + latin1_enc(x));
        }
        i += 1;
    }
    assert(b@.take(i as int) =~= b@);
    out
}

/// The Latin-1 reading of a byte string, as text.
pub fn latin1_string(b: &[u8]) -> (s: String)
    ensures
        s@ == latin1(b@),
{
    let out = latin1_utf8(b);
    proof {
        vstd::utf8::encode_utf8_valid_utf8(latin1(b@));
        vstd::utf8::encode_utf8_decode_utf8(latin1(b@));
    }
    lossy_string(out.as_slice())
}

/// Whether `b` is well-formed UTF-8.
pub fn is_utf8(b: &[u8]) -> (r: bool)
    ensures
        r == vstd::utf8::valid_utf8(b@),
{
    crate::text::string_from_utf8(to_vec(b)).is_some()
}

/// A charset label normalised for matching: trimmed, surrounding double quotes removed,
/// lower-cased.
pub open spec fn charset_key(cs: Seq<u8>) -> Seq<u8> {
    crate::bytes::lower_seq(trim_quotes_spec(crate::bytes::trim_spec(cs)))
}

/// Number of leading `"` bytes.
pub open spec fn lead_quotes(s: Seq<u8>) -> nat
    decreases s.len(),
{
    if s.len() > 0 && s[0] == 34 { 1 + lead_quotes(s.drop_first()) } else { 0 }
}

/// Number of trailing `"` bytes.
pub open spec fn trail_quotes(s: Seq<u8>) -> nat
    decreases s.len(),
{
    if s.len() > 0 && s.last() == 34 { 1 + trail_quotes(s.drop_last()) } else { 0 }
}

/// `s` with every leading and trailing `"` removed.
pub open spec fn trim_quotes_spec(s: Seq<u8>) -> Seq<u8> {
    let t = s.subrange(lead_quotes(s) as int, s.len() as int);
    t.subrange(0, t.len() - trail_quotes(t))
}

proof fn lemma_lead_quotes(s: Seq<u8>, i: int)
    requires
        0 <= i <= s.len(),
        forall|j: int| 0 <= j < i ==> #[trigger] s[j] == 34,
        i == s.len() || s[i] != 34,
    ensures
        lead_quotes(s) == i,
    decreases i,
{
    if i > 0 {
        lemma_lead_quotes(s.drop_first(), i - 1);
    }
}

proof fn lemma_trail_quotes(s: Seq<u8>, k: int)
    requires
        0 <= k <= s.len(),
        forall|j: int| s.len() - k <= j < s.len() ==> #[trigger] s[j] == 34,
        k == s.len() || s[s.len() - k - 1] != 34,
    ensures
        trail_quotes(s) == k,
    decreases k,
{
    if k > 0 {
        lemma_trail_quotes(s.drop_last(), k - 1);
    }
}

pub fn trim_quotes(s: &[u8]) -> (r: &[u8])
    ensures
        r@ == trim_quotes_spec(s@),
{
    let mut i: usize = 0;
    while i < s.len() && s[i] == 34
        invariant
            i <= s@.len(),
            forall|j: int| 0 <= j < i ==> #[trigger] s@[j] == 34,
        decreases s@.len() - i,
    {
        i += 1;
    }
    proof {
        lemma_lead_quotes(s@, i as int);
    }
    let t = slice_of(s, i, s.len());
    let mut k: usize = 0;
    while k < t.len() && t[t.len() - 1 - k] == 34
        invariant
            k <= t@.len(),
            forall|j: int| t@.len() - k <= j < t@.len() ==> #[trigger] t@[j] == 34,
        decreases t@.len() - k,
    {
        k += 1;
    }
    proof {
        lemma_trail_quotes(t@, k as int);
    }
    slice_of(t, 0, t.len() - k)
}

pub open spec fn is_utf8_label(k: Seq<u8>) -> bool {
    k == crate::bytes::lit("utf-8") || k == crate::bytes::lit("utf8") || k.len() == 0
}

pub open spec fn is_ascii_label(k: Seq<u8>) -> bool {
    k == crate::bytes::lit("us-ascii") || k == crate::bytes::lit("ascii") || k == crate::bytes::lit(
        "ansi_x3.4-1968",
    )
}

pub open spec fn is_latin1_label(k: Seq<u8>) -> bool {
    ||| k == crate::bytes::lit("iso-8859-1")
    ||| k == crate::bytes::lit("iso8859-1")
    ||| k == crate::bytes::lit("iso_8859-1")
    ||| k == crate::bytes::lit("latin1")
    ||| k == crate::bytes::lit("latin-1")
    ||| k == crate::bytes::lit("l1")
    ||| k == crate::bytes::lit("cp819")
}

/// Text of `bytes` under a charset label, and whether the text is not a faithful decode.
/// UTF-8 (also the absent label) decodes, replacing invalid sequences and flagging them;
/// US-ASCII decodes, or reads 8-bit bytes as Latin-1 and flags them; ISO-8859-1 maps each byte
/// to its scalar; any other label is read as UTF-8 and flagged when a byte is not ASCII.
pub open spec fn decode_charset_spec(b: Seq<u8>, cs: Seq<u8>) -> (Seq<char>, bool) {
    let k = charset_key(cs);
    if is_utf8_label(k) {
        if vstd::utf8::valid_utf8(b) {
            (vstd::utf8::decode_utf8(b), false)
        } else {
            (crate::text::utf8_lossy(b), true)
        }
    } else if is_ascii_label(k) {
        if all_ascii(b) {
            (crate::text::utf8_lossy(b), false)
        } else {
            (latin1(b), true)
        }
    } else if is_latin1_label(k) {
        (latin1(b), false)
    } else {
        (crate::text::utf8_lossy(b), !all_ascii(b))
    }
}

/// Decode `bytes` labelled with a MIME `charset` into text, with the flag that says the text is
/// not a faithful decode. Never fails.
pub fn decode_charset(bytes: &[u8], charset: &str) -> (r: (String, bool))
    ensures
        (r.0@, r.1) == decode_charset_spec(bytes@, crate::bytes::lit(charset)),
{
    decode_charset_bytes(bytes, charset.as_bytes())
}

/// [`decode_charset`] with the label given as bytes.
pub fn decode_charset_bytes(bytes: &[u8], charset: &[u8]) -> (r: (String, bool))
    ensures
        (r.0@, r.1) == decode_charset_spec(bytes@, charset@),
{
    let k = to_lower(trim_quotes(trim(charset)));
    let k = k.as_slice();
    if is_lit(k, "utf-8") || is_lit(k, "utf8") || k.len() == 0 {
        if is_utf8(bytes) {
            (lossy_string(bytes), false)
        } else {
            (lossy_string(bytes), true)
        }
    } else if is_lit(k, "us-ascii") || is_lit(k, "ascii") || is_lit(k, "ansi_x3.4-1968") {
        if is_ascii_bytes(bytes) {
            (lossy_string(bytes), false)
        } else {
            (latin1_string(bytes), true)
        }
    } else if is_lit(k, "iso-8859-1") || is_lit(k, "iso8859-1") || is_lit(k, "iso_8859-1")
        || is_lit(k, "latin1") || is_lit(k, "latin-1") || is_lit(k, "l1") || is_lit(k, "cp819") {
        (latin1_string(bytes), false)
    } else {
        let problem = !is_ascii_bytes(bytes);
        (lossy_string(bytes), problem)
    }
}

/// Printable ASCII plus TAB: the bytes that may stand verbatim in a header value on the wire.
pub open spec fn wire_safe(s: Seq<u8>) -> bool {
    forall|i: int| 0 <= i < s.len() ==> (#[trigger] s[i] == 9 || (32 <= s[i] < 127))
}

pub fn is_wire_safe_ascii(v: &[u8]) -> (r: bool)
    ensures
        r == wire_safe(v@),
{
    let mut i: usize = 0;
    while i < v.len()
        invariant
            i <= v@.len(),
            forall|j: int| 0 <= j < i ==> (#[trigger] v@[j] == 9 || (32 <= v@[j] < 127)),
        decreases v@.len() - i,
    {
        let b = v[i];
        if !(b == 9 || (32 <= b && b < 127)) {
            return false;
        }
        i += 1;
    }
    true
}


// ---------------------------------------------------------------------------------------------
// Header block
// ---------------------------------------------------------------------------------------------

/// The views of a list of byte-string pairs.
pub open spec fn pairs_view(v: Seq<(Vec<u8>, Vec<u8>)>) -> Seq<(Seq<u8>, Seq<u8>)> {
    v.map_values(|p: (Vec<u8>, Vec<u8>)| (p.0@, p.1@))
}

/// The views of a list of string pairs.
pub open spec fn headers_view(v: Seq<(String, String)>) -> Seq<(Seq<char>, Seq<char>)> {
    v.map_values(|p: (String, String)| (p.0@, p.1@))
}

/// Byte-string pairs as text (each through `String::from_utf8_lossy`).
pub open spec fn pairs_text(v: Seq<(Seq<u8>, Seq<u8>)>) -> Seq<(Seq<char>, Seq<char>)> {
    v.map_values(|p: (Seq<u8>, Seq<u8>)| (crate::text::utf8_lossy(p.0), crate::text::utf8_lossy(p.1)))
}

/// The text of a header block as bytes: the block itself when it is valid UTF-8, otherwise its
/// Latin-1 reading, which keeps every byte of a legacy 8-bit header.
pub open spec fn header_text(b: Seq<u8>) -> Seq<u8> {
    if vstd::utf8::valid_utf8(b) {
        b
    } else {
        vstd::utf8::encode_utf8(latin1(b))
    }
}

/// A line without its trailing CR, if it has one.
pub open spec fn strip_cr(l: Seq<u8>) -> Seq<u8> {
    if l.len() > 0 && l.last() == 13 { l.drop_last() } else { l }
}

/// One header line added to the headers read so far: empty lines are skipped, a line starting
/// with SP/TAB continues the previous value (joined by one SP, trimmed), a `name: value` line
/// adds a header (both sides trimmed), and any other line is ignored.
pub open spec fn hdr_step(acc: Seq<(Seq<u8>, Seq<u8>)>, line: Seq<u8>) -> Seq<(Seq<u8>, Seq<u8>)> {
    if line.len() == 0 {
        acc
    } else if crate::bytes::is_wsp(line[0]) && acc.len() > 0 {
        acc.update(
            acc.len() - 1,
            (acc.last().0, acc.last().1 + seq![32u8] + crate::bytes::trim_spec(line)),
        )
    } else if next_byte(line, 58, 0) < line.len() {
        let c = next_byte(line, 58, 0);
        acc.push(
            (
                crate::bytes::trim_spec(line.subrange(0, c)),
                crate::bytes::trim_spec(line.subrange(c + 1, line.len() as int)),
            ),
        )
    } else {
        acc
    }
}

/// The headers of a sequence of lines.
pub open spec fn hdr_fold(lines: Seq<Seq<u8>>) -> Seq<(Seq<u8>, Seq<u8>)>
    decreases lines.len(),
{
    if lines.len() == 0 {
        seq![]
    } else {
        hdr_step(hdr_fold(lines.drop_last()), strip_cr(lines.last()))
    }
}

/// The unfolded headers of a header block, as byte strings.
pub open spec fn header_block_spec(b: Seq<u8>) -> Seq<(Seq<u8>, Seq<u8>)> {
    hdr_fold(crate::bytes::split_spec(header_text(b), 10))
}

fn header_text_bytes(b: &[u8]) -> (r: Vec<u8>)
    ensures
        r@ == header_text(b@),
{
    if is_utf8(b) {
        to_vec(b)
    } else {
        latin1_utf8(b)
    }
}

/// Parse a header block into unfolded (name, value) byte-string pairs.
pub fn parse_header_block_bytes(bytes: &[u8]) -> (r: Vec<(Vec<u8>, Vec<u8>)>)
    ensures
        pairs_view(r@) == header_block_spec(bytes@),
{
    let text = header_text_bytes(bytes);
    let lines = split_on(text.as_slice(), 10);
    let ghost ls = crate::bytes::views(lines@);
    let mut out: Vec<(Vec<u8>, Vec<u8>)> = Vec::new();
    let mut i: usize = 0;
    assert(ls.take(0) =~= Seq::<Seq<u8>>::empty());
    assert(pairs_view(out@) =~= Seq::<(Seq<u8>, Seq<u8>)>::empty());
    while i < lines.len()
        invariant
            i <= lines@.len(),
            ls == crate::bytes::views(lines@),
            ls.len() == lines@.len(),
            pairs_view(out@) == hdr_fold(ls.take(i as int)),
        decreases lines@.len() - i,
    {
        assert(ls.take(i + 1).drop_last() =~= ls.take(i as int));
        assert(ls.take(i + 1).last() == lines@[i as int]@);
        let raw_line = lines[i].as_slice();
        let line: &[u8] = if raw_line.len() > 0 && raw_line[raw_line.len() - 1] == 13 {
            slice_of(raw_line, 0, raw_line.len() - 1)
        } else {
            raw_line
        };
        assert(line@ =~= strip_cr(lines@[i as int]@));
        let ghost acc = pairs_view(out@);
        if line.len() == 0 {
        } else if (line[0] == 32 || line[0] == 9) && out.len() > 0 {
            let ghost old_out = out@;
            let (k, mut v) = out.pop().unwrap();
            assert(old_out.last() == (k, v));
            assert(acc.last() == (k@, v@));
            let ghost v0 = v@;
            v.push(32);
            push_all(&mut v, trim(line));
            assert(v@ =~= v0 + seq![32u8] + crate::bytes::trim_spec(line@));
            out.push((k, v));
            assert(out@ =~= old_out.drop_last().push((k, v)));
            assert(pairs_view(out@) =~= pairs_view(old_out.drop_last()).push((k@, v@)));
            assert(pairs_view(old_out.drop_last()) =~= acc.drop_last());
            assert(pairs_view(out@) =~= hdr_step(acc, line@));
        } else {
            let c = scan_to(line, 58, 0);
            if c < line.len() {
                let name = to_vec(trim(slice_of(line, 0, c)));
                let val = to_vec(trim(slice_of(line, c + 1, line.len())));
                out.push((name, val));
                assert(pairs_view(out@) =~= hdr_step(acc, line@));
            }
        }
        i += 1;
    }
    assert(ls.take(i as int) =~= ls);
    out
}

/// Byte-string pairs as `String` pairs.
pub fn pairs_to_strings(v: &Vec<(Vec<u8>, Vec<u8>)>) -> (r: Vec<(String, String)>)
    ensures
        headers_view(r@) == pairs_text(pairs_view(v@)),
{
    let mut out: Vec<(String, String)> = Vec::new();
    let mut i: usize = 0;
    while i < v.len()
        invariant
            i <= v@.len(),
            headers_view(out@) == pairs_text(pairs_view(v@)).take(i as int),
        decreases v@.len() - i,
    {
        let ghost before = headers_view(out@);
        let ghost old_out = out@;
        let k = lossy_string(v[i].0.as_slice());
        let x = lossy_string(v[i].1.as_slice());
        out.push((k, x));
        assert(pairs_view(v@)[i as int] == (v@[i as int].0@, v@[i as int].1@));
        assert(pairs_text(pairs_view(v@))[i as int] == (k@, x@));
        assert(headers_view(out@) =~= headers_view(old_out).push((k@, x@)));
        assert(headers_view(out@) =~= pairs_text(pairs_view(v@)).take(i + 1));
        i += 1;
    }
    assert(pairs_text(pairs_view(v@)).take(i as int) =~= pairs_text(pairs_view(v@)));
    out
}

/// Parse just the header block of a raw message (no MIME-structure walk).
pub fn headers_only(raw: &[u8]) -> (r: Vec<(String, String)>)
    ensures
        headers_view(r@) == pairs_text(
            header_block_spec(raw@.subrange(0, body_offset_spec(raw@))),
        ),
{
    let s = body_offset(raw);
    let h = parse_header_block_bytes(slice_of(raw, 0, s));
    pairs_to_strings(&h)
}


// ---------------------------------------------------------------------------------------------
// Header lookup, Content-Type
// ---------------------------------------------------------------------------------------------

/// The first index at or after `i` of a header named `name` (ASCII case-insensitive), or the
/// number of headers when there is none.
pub open spec fn header_index(hs: Seq<(Seq<u8>, Seq<u8>)>, name: Seq<u8>, i: int) -> int
    decreases hs.len() - i,
{
    if i >= hs.len() {
        hs.len() as int
    } else if i >= 0 && crate::bytes::eq_ci_spec(hs[i].0, name) {
        i
    } else {
        header_index(hs, name, i + 1)
    }
}

proof fn lemma_header_index(hs: Seq<(Seq<u8>, Seq<u8>)>, name: Seq<u8>, i: int)
    requires
        0 <= i <= hs.len(),
    ensures
        i <= header_index(hs, name, i) <= hs.len(),
    decreases hs.len() - i,
{
    if i < hs.len() && !crate::bytes::eq_ci_spec(hs[i].0, name) {
        lemma_header_index(hs, name, i + 1);
    }
}

/// The value of the first header named `name`, if any.
pub open spec fn header_value(hs: Seq<(Seq<u8>, Seq<u8>)>, name: Seq<u8>) -> Option<Seq<u8>> {
    let k = header_index(hs, name, 0);
    if 0 <= k < hs.len() {
        Some(hs[k].1)
    } else {
        None
    }
}

fn find_header(hs: &Vec<(Vec<u8>, Vec<u8>)>, name: &str) -> (r: Option<usize>)
    ensures
        match r {
            Some(k) => k < hs@.len() && header_index(pairs_view(hs@), crate::bytes::lit(name), 0)
                == k,
            None => header_index(pairs_view(hs@), crate::bytes::lit(name), 0) == hs@.len(),
        },
{
    let ghost v = pairs_view(hs@);
    let mut i: usize = 0;
    while i < hs.len()
        invariant
            i <= hs@.len(),
            v == pairs_view(hs@),
            header_index(v, crate::bytes::lit(name), i as int) == header_index(
                v,
                crate::bytes::lit(name),
                0,
            ),
        decreases hs@.len() - i,
    {
        assert(v[i as int].0 == hs@[i as int].0@);
        if is_kw(hs[i].0.as_slice(), name) {
            return Some(i);
        }
        i += 1;
    }
    None
}

/// The first index at or after `i` of a parameter whose name is exactly `key`.
pub open spec fn param_index(ps: Seq<(Seq<u8>, Seq<u8>)>, key: Seq<u8>, i: int) -> int
    decreases ps.len() - i,
{
    if i >= ps.len() {
        ps.len() as int
    } else if i >= 0 && ps[i].0 == key {
        i
    } else {
        param_index(ps, key, i + 1)
    }
}

/// The value of the first parameter named exactly `key`, if any.
pub open spec fn param_value(ps: Seq<(Seq<u8>, Seq<u8>)>, key: Seq<u8>) -> Option<Seq<u8>> {
    let k = param_index(ps, key, 0);
    if 0 <= k < ps.len() {
        Some(ps[k].1)
    } else {
        None
    }
}

fn find_param(ps: &Vec<(Vec<u8>, Vec<u8>)>, key: &str) -> (r: Option<usize>)
    ensures
        match r {
            Some(k) => k < ps@.len() && param_index(pairs_view(ps@), crate::bytes::lit(key), 0)
                == k,
            None => param_index(pairs_view(ps@), crate::bytes::lit(key), 0) == ps@.len(),
        },
{
    let ghost v = pairs_view(ps@);
    let mut i: usize = 0;
    while i < ps.len()
        invariant
            i <= ps@.len(),
            v == pairs_view(ps@),
            param_index(v, crate::bytes::lit(key), i as int) == param_index(
                v,
                crate::bytes::lit(key),
                0,
            ),
        decreases ps@.len() - i,
    {
        assert(v[i as int].0 == ps@[i as int].0@);
        if is_lit(ps[i].0.as_slice(), key) {
            return Some(i);
        }
        i += 1;
    }
    None
}

/// The `type/subtype` part of a Content-Type value, trimmed.
pub open spec fn ct_full(v: Seq<u8>) -> Seq<u8> {
    crate::bytes::trim_spec(crate::bytes::split_spec(v, 59)[0])
}

/// The media type of a Content-Type value (lower case), `text` when there is no `/`.
pub open spec fn ct_type(v: Seq<u8>) -> Seq<u8> {
    let f = ct_full(v);
    let sl = next_byte(f, 47, 0);
    if sl < f.len() {
        crate::bytes::lower_seq(crate::bytes::trim_spec(f.subrange(0, sl)))
    } else {
        crate::bytes::lit("text")
    }
}

/// The subtype of a Content-Type value (lower case), `plain` when there is no `/`.
pub open spec fn ct_subtype(v: Seq<u8>) -> Seq<u8> {
    let f = ct_full(v);
    let sl = next_byte(f, 47, 0);
    if sl < f.len() {
        crate::bytes::lower_seq(crate::bytes::trim_spec(f.subrange(sl + 1, f.len() as int)))
    } else {
        crate::bytes::lit("plain")
    }
}

/// The parameters of the `;`-separated pieces after the first: each piece with an `=` gives
/// (lower-cased trimmed name, trimmed value without surrounding quotes); others are skipped.
pub open spec fn ct_params_fold(pieces: Seq<Seq<u8>>) -> Seq<(Seq<u8>, Seq<u8>)>
    decreases pieces.len(),
{
    if pieces.len() == 0 {
        seq![]
    } else {
        let acc = ct_params_fold(pieces.drop_last());
        let p = pieces.last();
        let e = next_byte(p, 61, 0);
        if e < p.len() {
            acc.push(
                (
                    crate::bytes::lower_seq(crate::bytes::trim_spec(p.subrange(0, e))),
                    trim_quotes_spec(crate::bytes::trim_spec(p.subrange(e + 1, p.len() as int))),
                ),
            )
        } else {
            acc
        }
    }
}

pub open spec fn ct_params(v: Seq<u8>) -> Seq<(Seq<u8>, Seq<u8>)> {
    ct_params_fold(crate::bytes::split_spec(v, 59).drop_first())
}

/// Parse a Content-Type value as bytes into (type, subtype, params).
pub fn parse_ct_bytes(v: &[u8]) -> (r: (Vec<u8>, Vec<u8>, Vec<(Vec<u8>, Vec<u8>)>))
    ensures
        r.0@ == ct_type(v@),
        r.1@ == ct_subtype(v@),
        pairs_view(r.2@) == ct_params(v@),
{
    let pieces = split_on(v, 59);
    let ghost ps = crate::bytes::views(pieces@);
    assert(ps[0] == pieces@[0]@);
    let full = trim(pieces[0].as_slice());
    let sl = scan_to(full, 47, 0);
    proof {
        lemma_next_byte(full@, 47, 0);
    }
    let (mt, st) = if sl < full.len() {
        (
            to_lower(trim(slice_of(full, 0, sl))),
            to_lower(trim(slice_of(full, sl + 1, full.len()))),
        )
    } else {
        (lit_vec("text"), lit_vec("plain"))
    };
    let mut params: Vec<(Vec<u8>, Vec<u8>)> = Vec::new();
    let mut i: usize = 1;
    let ghost rest = ps.drop_first();
    assert(rest.take(0) =~= Seq::<Seq<u8>>::empty());
    assert(pairs_view(params@) =~= Seq::<(Seq<u8>, Seq<u8>)>::empty());
    while i < pieces.len()
        invariant
            1 <= i <= pieces@.len(),
            ps == crate::bytes::views(pieces@),
            rest == ps.drop_first(),
            pairs_view(params@) == ct_params_fold(rest.take(i - 1)),
        decreases pieces@.len() - i,
    {
        assert(rest.take(i as int).drop_last() =~= rest.take(i - 1));
        assert(rest.take(i as int).last() == pieces@[i as int]@);
        let p = pieces[i].as_slice();
        let e = scan_to(p, 61, 0);
        proof {
            lemma_next_byte(p@, 61, 0);
        }
        if e < p.len() {
            let k = to_lower(trim(slice_of(p, 0, e)));
            let val = to_vec(trim_quotes(trim(slice_of(p, e + 1, p.len()))));
            let ghost before = params@;
            params.push((k, val));
            assert(pairs_view(params@) =~= pairs_view(before).push((k@, val@)));
        }
        i += 1;
    }
    assert(rest.take(i - 1) =~= rest);
    (mt, st, params)
}

/// Parse a Content-Type value like `multipart/mixed; boundary="x"; charset=utf-8` into
/// (type, subtype, params).
pub fn parse_content_type(v: &str) -> (r: (String, String, Vec<(String, String)>))
    ensures
        r.0@ == crate::text::utf8_lossy(ct_type(crate::bytes::lit(v))),
        r.1@ == crate::text::utf8_lossy(ct_subtype(crate::bytes::lit(v))),
        headers_view(r.2@) == pairs_text(ct_params(crate::bytes::lit(v))),
{
    let (mt, st, ps) = parse_ct_bytes(v.as_bytes());
    (lossy_string(mt.as_slice()), lossy_string(st.as_slice()), pairs_to_strings(&ps))
}

/// The Content-Type of a header list: that of the first `Content-Type` header, else
/// `text/plain`.
pub open spec fn ct_of(hs: Seq<(Seq<u8>, Seq<u8>)>) -> Seq<u8> {
    match header_value(hs, crate::bytes::lit("Content-Type")) {
        Some(v) => v,
        None => crate::bytes::lit("text/plain"),
    }
}

fn content_type_of(hs: &Vec<(Vec<u8>, Vec<u8>)>) -> (r: Vec<u8>)
    ensures
        r@ == ct_of(pairs_view(hs@)),
{
    match find_header(hs, "Content-Type") {
        Some(k) => {
            assert(pairs_view(hs@)[k as int].1 == hs@[k as int].1@);
            to_vec(hs[k].1.as_slice())
        },
        None => lit_vec("text/plain"),
    }
}

// ---------------------------------------------------------------------------------------------
// Multipart
// ---------------------------------------------------------------------------------------------

/// Positions of the non-overlapping occurrences of `d` in `h` found scanning from `i`.
pub open spec fn delims_from(h: Seq<u8>, d: Seq<u8>, i: int) -> Seq<int>
    decreases h.len() - i,
{
    if d.len() == 0 || i < 0 || i + d.len() > h.len() {
        seq![]
    } else if h.subrange(i, i + d.len()) == d {
        seq![i] + delims_from(h, d, i + d.len())
    } else {
        delims_from(h, d, i + 1)
    }
}

proof fn lemma_delims(h: Seq<u8>, d: Seq<u8>, i: int)
    requires
        0 <= i,
    ensures
        forall|k: int|
            0 <= k < delims_from(h, d, i).len() ==> i <= #[trigger] delims_from(h, d, i)[k]
                && delims_from(h, d, i)[k] + d.len() <= h.len(),
        forall|k: int|
            0 <= k < delims_from(h, d, i).len() - 1 ==> #[trigger] delims_from(h, d, i)[k]
                + d.len() <= delims_from(h, d, i)[k + 1],
    decreases h.len() - i,
{
    let p = delims_from(h, d, i);
    if d.len() == 0 || i + d.len() > h.len() {
        assert(p.len() == 0);
    } else if h.subrange(i, i + d.len()) == d {
        lemma_delims(h, d, i + d.len());
        let r = delims_from(h, d, i + d.len());
        assert(p == seq![i] + r);
        assert forall|k: int| 0 <= k < p.len() implies i <= #[trigger] p[k] && p[k] + d.len()
            <= h.len() by {
            if k > 0 {
                assert(p[k] == r[k - 1]);
            }
        }
        assert forall|k: int| 0 <= k < p.len() - 1 implies #[trigger] p[k] + d.len() <= p[k
            + 1] by {
            assert(p[k + 1] == r[k]);
            if k > 0 {
                assert(p[k] == r[k - 1]);
            }
        }
    } else {
        lemma_delims(h, d, i + 1);
        assert(p == delims_from(h, d, i + 1));
    }
}

/// A segment without the line break that follows its opening delimiter (CRLF or LF).
pub open spec fn strip_lead_nl(s: Seq<u8>) -> Seq<u8> {
    if s.len() >= 2 && s[0] == 13 && s[1] == 10 {
        s.subrange(2, s.len() as int)
    } else if s.len() >= 1 && s[0] == 10 {
        s.subrange(1, s.len() as int)
    } else {
        s
    }
}

/// A segment without the line break that precedes the next delimiter (CRLF or LF), which
/// belongs to that delimiter (RFC 2046 §5.1.1).
pub open spec fn strip_trail_nl(s: Seq<u8>) -> Seq<u8> {
    if s.len() >= 2 && s[s.len() - 2] == 13 && s[s.len() - 1] == 10 {
        s.subrange(0, s.len() - 2)
    } else if s.len() >= 1 && s[s.len() - 1] == 10 {
        s.subrange(0, s.len() - 1)
    } else {
        s
    }
}

/// A part between two delimiters: without the line break after the opening delimiter and the
/// one before the next.
pub open spec fn trim_segment(s: Seq<u8>) -> Seq<u8> {
    strip_trail_nl(strip_lead_nl(s))
}

/// The part segments of a multipart body: the bytes between consecutive `--boundary`
/// delimiters (the preamble before the first and everything after the last are dropped), each
/// without the line break after its opening delimiter and the one before the next.
pub open spec fn multipart_segments(body: Seq<u8>, boundary: Seq<u8>) -> Seq<Seq<u8>> {
    let d = seq![45u8, 45u8] + boundary;
    let p = delims_from(body, d, 0);
    if p.len() < 2 {
        seq![]
    } else {
        Seq::new(
            (p.len() - 1) as nat,
            |k: int| trim_segment(body.subrange(p[k] + d.len(), p[k + 1])),
        )
    }
}

fn delim_positions(body: &[u8], delim: &[u8]) -> (r: Vec<usize>)
    requires
        delim@.len() >= 1,
    ensures
        r@.map_values(|x: usize| x as int) == delims_from(body@, delim@, 0),
{
    let ghost d = delim@;
    let dl = delim.len();
    let mut positions: Vec<usize> = Vec::new();
    let mut i: usize = 0;
    while i <= body.len() && dl <= body.len() - i
        invariant
            d == delim@,
            dl == d.len(),
            dl >= 1,
            positions@.map_values(|x: usize| x as int) + delims_from(body@, d, i as int)
                == delims_from(body@, d, 0),
        decreases body@.len() - i,
    {
        let ghost before = positions@.map_values(|x: usize| x as int);
        if crate::bytes::matches_at(body, delim, i) {
            assert(body@.subrange(i as int, i + dl) == d);
            positions.push(i);
            assert(positions@.map_values(|x: usize| x as int) =~= before.push(i as int));
            assert(before + delims_from(body@, d, i as int) =~= before.push(i as int)
                + delims_from(body@, d, i + dl));
            i += dl;
        } else {
            i += 1;
        }
    }
    assert(delims_from(body@, d, i as int) =~= Seq::<int>::empty());
    assert(positions@.map_values(|x: usize| x as int) =~= delims_from(body@, d, 0));
    positions
}

proof fn lemma_multipart_index(body: Seq<u8>, boundary: Seq<u8>, k: int)
    requires
        delims_from(body, seq![45u8, 45u8] + boundary, 0).len() >= 2,
        0 <= k < delims_from(body, seq![45u8, 45u8] + boundary, 0).len() - 1,
    ensures
        multipart_segments(body, boundary).len() == delims_from(
            body,
            seq![45u8, 45u8] + boundary,
            0,
        ).len() - 1,
        multipart_segments(body, boundary)[k] == trim_segment(
            body.subrange(
                delims_from(body, seq![45u8, 45u8] + boundary, 0)[k] + boundary.len() + 2,
                delims_from(body, seq![45u8, 45u8] + boundary, 0)[k + 1],
            ),
        ),
{
}

fn segment_between(body: &[u8], start: usize, end: usize) -> (r: Vec<u8>)
    requires
        start <= end <= body@.len(),
    ensures
        r@ == trim_segment(body@.subrange(start as int, end as int)),
{
    let seg0 = slice_of(body, start, end);
    let seg1 = if seg0.len() >= 2 && seg0[0] == 13 && seg0[1] == 10 {
        slice_of(seg0, 2, seg0.len())
    } else if seg0.len() >= 1 && seg0[0] == 10 {
        slice_of(seg0, 1, seg0.len())
    } else {
        seg0
    };
    let n = seg1.len();
    if n >= 2 && seg1[n - 2] == 13 && seg1[n - 1] == 10 {
        to_vec(slice_of(seg1, 0, n - 2))
    } else if n >= 1 && seg1[n - 1] == 10 {
        to_vec(slice_of(seg1, 0, n - 1))
    } else {
        to_vec(seg1)
    }
}

/// Split a multipart body into its part segments on `--boundary` delimiters (RFC 2046 §5.1).
#[verifier::rlimit(40)]
pub fn split_multipart(body: &[u8], boundary: &[u8]) -> (r: Vec<Vec<u8>>)
    ensures
        crate::bytes::views(r@) == multipart_segments(body@, boundary@),
{
    let mut delim: Vec<u8> = Vec::new();
    delim.push(45);
    delim.push(45);
    push_all(&mut delim, boundary);
    let ghost d = delim@;
    assert(d =~= seq![45u8, 45u8] + boundary@);
    let dl = delim.len();
    let positions = delim_positions(body, delim.as_slice());
    let ghost p = delims_from(body@, d, 0);
    let ghost segs = multipart_segments(body@, boundary@);
    proof {
        lemma_delims(body@, d, 0);
    }
    let mut out: Vec<Vec<u8>> = Vec::new();
    if positions.len() < 2 {
        assert(segs =~= Seq::<Seq<u8>>::empty());
        return out;
    }
    assert(segs.len() == p.len() - 1);
    let mut k: usize = 0;
    while k < positions.len() - 1
        invariant
            positions@.len() >= 2,
            k + 1 <= positions@.len(),
            p == positions@.map_values(|x: usize| x as int),
            p == delims_from(body@, d, 0),
            segs == multipart_segments(body@, boundary@),
            segs.len() == p.len() - 1,
            d == seq![45u8, 45u8] + boundary@,
            dl == d.len(),
            forall|j: int| 0 <= j < p.len() ==> 0 <= #[trigger] p[j] && p[j] + d.len() <= body@.len(),
            forall|j: int| 0 <= j < p.len() - 1 ==> #[trigger] p[j] + d.len() <= p[j + 1],
            crate::bytes::views(out@) == segs.take(k as int),
        decreases positions@.len() - k,
    {
        assert(p[k as int] == positions@[k as int]);
        assert(p[k + 1] == positions@[k + 1]);
        let start = positions[k] + dl;
        let end = positions[k + 1];
        let seg = segment_between(body, start, end);
        proof {
            lemma_multipart_index(body@, boundary@, k as int);
        }
        assert(seg@ == segs[k as int]);
        let ghost before = crate::bytes::views(out@);
        out.push(seg);
        assert(crate::bytes::views(out@) =~= before.push(seg@));
        assert(crate::bytes::views(out@) =~= segs.take(k + 1));
        k += 1;
    }
    assert(segs.take(k as int) =~= segs);
    out
}

/// The top-level part segments of a raw message: for a `multipart/*` message with a
/// `boundary` parameter, its segments; otherwise none.
pub open spec fn part_segments_spec(raw: Seq<u8>) -> Seq<Seq<u8>> {
    let off = body_offset_spec(raw);
    let hs = header_block_spec(raw.subrange(0, off));
    let body = raw.subrange(off, raw.len() as int);
    let ct = ct_of(hs);
    if ct_type(ct) != crate::bytes::lit("multipart") {
        seq![]
    } else {
        match param_value(ct_params(ct), crate::bytes::lit("boundary")) {
            Some(b) => multipart_segments(body, b),
            None => seq![],
        }
    }
}

/// Top-level MIME part segments (each with that part's own headers and body); empty for a
/// non-multipart message. Used by the IMAP `BODY[n]` / `BODY[n.MIME]` section fetches.
pub fn part_segments(raw: &[u8]) -> (r: Vec<Vec<u8>>)
    ensures
        crate::bytes::views(r@) == part_segments_spec(raw@),
{
    let off = body_offset(raw);
    let hs = parse_header_block_bytes(slice_of(raw, 0, off));
    let body = slice_of(raw, off, raw.len());
    let ct = content_type_of(&hs);
    let (mt, _st, params) = parse_ct_bytes(ct.as_slice());
    if !is_lit(mt.as_slice(), "multipart") {
        return Vec::new();
    }
    match find_param(&params, "boundary") {
        Some(k) => {
            assert(pairs_view(params@)[k as int].1 == params@[k as int].1@);
            split_multipart(body, params[k].1.as_slice())
        },
        None => Vec::new(),
    }
}


// ---------------------------------------------------------------------------------------------
// Addresses
// ---------------------------------------------------------------------------------------------

/// An RFC 5322 address as the IMAP ENVELOPE 4-tuple (name, adl, mailbox, host).
#[derive(Debug, Clone)]
pub struct Address {
    pub name: Option<String>,
    pub adl: Option<String>,
    pub mailbox: Option<String>,
    pub host: Option<String>,
}

/// An optional string as optional text.
pub open spec fn opt_view(o: Option<String>) -> Option<Seq<char>> {
    match o {
        Some(s) => Some(s@),
        None => None,
    }
}

/// An optional byte string as optional text (through `String::from_utf8_lossy`).
pub open spec fn opt_text(o: Option<Seq<u8>>) -> Option<Seq<char>> {
    match o {
        Some(b) => Some(crate::text::utf8_lossy(b)),
        None => None,
    }
}

fn opt_string(o: Option<Vec<u8>>) -> (r: Option<String>)
    ensures
        opt_view(r) == opt_text(
            match o {
                Some(v) => Some(v@),
                None => None,
            },
        ),
{
    match o {
        Some(v) => Some(lossy_string(v.as_slice())),
        None => None,
    }
}

/// State of the address splitter after a prefix: finished pieces, the current piece, inside
/// quotes, inside angle brackets.
pub open spec fn addr_split_state(v: Seq<u8>) -> (Seq<Seq<u8>>, Seq<u8>, bool, bool)
    decreases v.len(),
{
    if v.len() == 0 {
        (seq![], seq![], false, false)
    } else {
        let (out, cur, q, a) = addr_split_state(v.drop_last());
        let c = v.last();
        if c == 34 {
            (out, cur.push(c), !q, a)
        } else if c == 60 && !q {
            (out, cur.push(c), q, true)
        } else if c == 62 && !q {
            (out, cur.push(c), q, false)
        } else if c == 44 && !q && !a {
            (out.push(cur), seq![], q, a)
        } else {
            (out, cur.push(c), q, a)
        }
    }
}

/// An address list split on the commas that are outside quotes and angle brackets; a last
/// piece that is only white space is dropped.
pub open spec fn split_addresses_spec(v: Seq<u8>) -> Seq<Seq<u8>> {
    let (out, cur, _q, _a) = addr_split_state(v);
    if crate::bytes::trim_spec(cur).len() > 0 {
        out.push(cur)
    } else {
        out
    }
}

fn split_addresses(v: &[u8]) -> (r: Vec<Vec<u8>>)
    ensures
        crate::bytes::views(r@) == split_addresses_spec(v@),
{
    let mut out: Vec<Vec<u8>> = Vec::new();
    let mut cur: Vec<u8> = Vec::new();
    let mut in_quote = false;
    let mut in_angle = false;
    let mut i: usize = 0;
    assert(v@.take(0) =~= Seq::<u8>::empty());
    while i < v.len()
        invariant
            i <= v@.len(),
            addr_split_state(v@.take(i as int)) == (
                crate::bytes::views(out@),
                cur@,
                in_quote,
                in_angle,
            ),
        decreases v@.len() - i,
    {
        assert(v@.take(i + 1).drop_last() =~= v@.take(i as int));
        let c = v[i];
        let ghost before = crate::bytes::views(out@);
        if c == 34 {
            in_quote = !in_quote;
            cur.push(c);
        } else if c == 60 && !in_quote {
            in_angle = true;
            cur.push(c);
        } else if c == 62 && !in_quote {
            in_angle = false;
            cur.push(c);
        } else if c == 44 && !in_quote && !in_angle {
            let done = cur;
            cur = Vec::new();
            out.push(done);
            assert(crate::bytes::views(out@) =~= before.push(done@));
            assert(cur@ =~= Seq::<u8>::empty());
        } else {
            cur.push(c);
        }
        i += 1;
    }
    assert(v@.take(i as int) =~= v@);
    if trim(cur.as_slice()).len() > 0 {
        let ghost before = crate::bytes::views(out@);
        out.push(cur);
        assert(crate::bytes::views(out@) =~= before.push(cur@));
    }
    out
}

/// The last position before `i` holding byte `b`, or -1.
pub open spec fn prev_byte(s: Seq<u8>, b: u8, i: int) -> int
    decreases i,
{
    if i <= 0 {
        -1
    } else if i <= s.len() && s[i - 1] == b {
        i - 1
    } else {
        prev_byte(s, b, i - 1)
    }
}

pub proof fn lemma_prev_byte(s: Seq<u8>, b: u8, i: int)
    requires
        0 <= i <= s.len(),
    ensures
        -1 <= prev_byte(s, b, i) < i,
        prev_byte(s, b, i) >= 0 ==> s[prev_byte(s, b, i)] == b,
    decreases i,
{
    if i > 0 && s[i - 1] != b {
        lemma_prev_byte(s, b, i - 1);
    }
}

fn rscan(s: &[u8], b: u8) -> (r: Option<usize>)
    ensures
        match r {
            Some(k) => k < s@.len() && prev_byte(s@, b, s@.len() as int) == k,
            None => prev_byte(s@, b, s@.len() as int) == -1,
        },
{
    let mut i = s.len();
    while i > 0
        invariant
            i <= s@.len(),
            prev_byte(s@, b, i as int) == prev_byte(s@, b, s@.len() as int),
        decreases i,
    {
        if s[i - 1] == b {
            return Some(i - 1);
        }
        i -= 1;
    }
    None
}

/// (display name, address text) of one trimmed address: the angle-addr form
/// `Name <mbox@host>` only when a `<` comes before the last `>`, otherwise the whole text is
/// the address.
pub open spec fn addr_parts(raw: Seq<u8>) -> (Option<Seq<u8>>, Seq<u8>) {
    let lt = next_byte(raw, 60, 0);
    let gt = prev_byte(raw, 62, raw.len() as int);
    if lt < raw.len() && gt >= 0 && gt > lt {
        let name = crate::bytes::trim_spec(
            trim_quotes_spec(crate::bytes::trim_spec(raw.subrange(0, lt))),
        );
        (
            if name.len() == 0 { None } else { Some(name) },
            crate::bytes::trim_spec(raw.subrange(lt + 1, gt)),
        )
    } else {
        (None, crate::bytes::trim_spec(raw))
    }
}

/// (name, mailbox, host) of one trimmed address: the address text splits at its first `@`.
pub open spec fn address_spec(raw: Seq<u8>) -> (Option<Seq<u8>>, Option<Seq<u8>>, Option<Seq<u8>>) {
    let (name, addr) = addr_parts(raw);
    let at = next_byte(addr, 64, 0);
    if at < addr.len() {
        (name, Some(addr.subrange(0, at)), Some(addr.subrange(at + 1, addr.len() as int)))
    } else if addr.len() == 0 {
        (name, None, None)
    } else {
        (name, Some(addr), None)
    }
}

/// The fields of an address as optional text.
pub open spec fn address_view(a: Address) -> (
    Option<Seq<char>>,
    Option<Seq<char>>,
    Option<Seq<char>>,
    Option<Seq<char>>,
) {
    (opt_view(a.name), opt_view(a.adl), opt_view(a.mailbox), opt_view(a.host))
}

/// The ENVELOPE address of one address text.
pub open spec fn address_text(raw: Seq<u8>) -> (
    Option<Seq<char>>,
    Option<Seq<char>>,
    Option<Seq<char>>,
    Option<Seq<char>>,
) {
    let (n, m, h) = address_spec(raw);
    (opt_text(n), None, opt_text(m), opt_text(h))
}

fn parse_one_address(raw: &[u8]) -> (r: Address)
    ensures
        address_view(r) == address_text(raw@),
{
    let lt = scan_to(raw, 60, 0);
    proof {
        lemma_next_byte(raw@, 60, 0);
    }
    let gt = rscan(raw, 62);
    let (name, addr): (Option<Vec<u8>>, &[u8]) = match gt {
        Some(g) if lt < raw.len() && g > lt => {
            let n = trim(trim_quotes(trim(slice_of(raw, 0, lt))));
            (if n.len() == 0 { None } else { Some(to_vec(n)) }, trim(slice_of(raw, lt + 1, g)))
        },
        _ => (None, trim(raw)),
    };
    let at = scan_to(addr, 64, 0);
    proof {
        lemma_next_byte(addr@, 64, 0);
    }
    let (mailbox, host) = if at < addr.len() {
        (Some(to_vec(slice_of(addr, 0, at))), Some(to_vec(slice_of(addr, at + 1, addr.len()))))
    } else if addr.len() == 0 {
        (None, None)
    } else {
        (Some(to_vec(addr)), None)
    };
    Address {
        name: opt_string(name),
        adl: None,
        mailbox: opt_string(mailbox),
        host: opt_string(host),
    }
}

/// The trimmed, non-empty pieces of an address list, in order.
pub open spec fn address_pieces(pieces: Seq<Seq<u8>>) -> Seq<Seq<u8>>
    decreases pieces.len(),
{
    if pieces.len() == 0 {
        seq![]
    } else {
        let acc = address_pieces(pieces.drop_last());
        let t = crate::bytes::trim_spec(pieces.last());
        if t.len() == 0 {
            acc
        } else {
            acc.push(t)
        }
    }
}

/// The ENVELOPE addresses of an address list.
pub open spec fn address_list_spec(v: Seq<u8>) -> Seq<
    (Option<Seq<char>>, Option<Seq<char>>, Option<Seq<char>>, Option<Seq<char>>),
> {
    address_pieces(split_addresses_spec(v)).map_values(|p: Seq<u8>| address_text(p))
}

/// The views of a list of addresses.
pub open spec fn addresses_view(v: Seq<Address>) -> Seq<
    (Option<Seq<char>>, Option<Seq<char>>, Option<Seq<char>>, Option<Seq<char>>),
> {
    v.map_values(|a: Address| address_view(a))
}

/// Parse an address list given as bytes.
pub fn parse_address_list_bytes(v: &[u8]) -> (r: Vec<Address>)
    ensures
        addresses_view(r@) == address_list_spec(v@),
{
    let pieces = split_addresses(v);
    let ghost ps = crate::bytes::views(pieces@);
    let ghost kept = address_pieces(ps);
    let mut out: Vec<Address> = Vec::new();
    let mut i: usize = 0;
    assert(ps.take(0) =~= Seq::<Seq<u8>>::empty());
    assert(addresses_view(out@) =~= address_pieces(ps.take(0)).map_values(
        |p: Seq<u8>| address_text(p),
    ));
    while i < pieces.len()
        invariant
            i <= pieces@.len(),
            ps == crate::bytes::views(pieces@),
            addresses_view(out@) == address_pieces(ps.take(i as int)).map_values(
                |p: Seq<u8>| address_text(p),
            ),
        decreases pieces@.len() - i,
    {
        assert(ps.take(i + 1).drop_last() =~= ps.take(i as int));
        assert(ps.take(i + 1).last() == pieces@[i as int]@);
        let raw = trim(pieces[i].as_slice());
        if raw.len() > 0 {
            let a = parse_one_address(raw);
            let ghost before = out@;
            out.push(a);
            assert(addresses_view(out@) =~= addresses_view(before).push(address_view(a)));
            assert(addresses_view(out@) =~= address_pieces(ps.take(i + 1)).map_values(
                |p: Seq<u8>| address_text(p),
            ));
        }
        i += 1;
    }
    assert(ps.take(i as int) =~= ps);
    out
}

/// Parse an RFC 5322 address list into ENVELOPE addresses: `Name <mbox@host>`, bare
/// `mbox@host`, quoted display names, comma separation.
pub fn parse_address_list(v: &str) -> (r: Vec<Address>)
    ensures
        addresses_view(r@) == address_list_spec(crate::bytes::lit(v)),
{
    parse_address_list_bytes(v.as_bytes())
}


// ---------------------------------------------------------------------------------------------
// MIME structure
// ---------------------------------------------------------------------------------------------

/// A MIME body part (RFC 2045): a leaf `Single` or a container `Multipart`.
#[derive(Debug, PartialEq, Eq)]
pub enum BodyPart {
    Single {
        mime_type: String,
        subtype: String,
        params: Vec<(String, String)>,
        id: Option<String>,
        description: Option<String>,
        encoding: String,
        octets: usize,
        /// Line count for `text/*` (RFC 9051 body-type-text `body-fld-lines`).
        lines: usize,
    },
    Multipart { subtype: String, parts: Vec<BodyPart>, params: Vec<(String, String)> },
}

/// The byte-level model of a body part.
pub enum PartSpec {
    Single {
        mime_type: Seq<u8>,
        subtype: Seq<u8>,
        params: Seq<(Seq<u8>, Seq<u8>)>,
        id: Option<Seq<u8>>,
        description: Option<Seq<u8>>,
        encoding: Seq<u8>,
        octets: nat,
        lines: nat,
    },
    Multipart { subtype: Seq<u8>, parts: Seq<PartSpec>, params: Seq<(Seq<u8>, Seq<u8>)> },
}

/// The Content-Transfer-Encoding of a part as IMAP reports it: trimmed, upper-cased, `7BIT`
/// when absent.
pub open spec fn part_encoding(hs: Seq<(Seq<u8>, Seq<u8>)>) -> Seq<u8> {
    let e = match header_value(hs, crate::bytes::lit("Content-Transfer-Encoding")) {
        Some(v) => v,
        None => crate::bytes::lit("7BIT"),
    };
    crate::bytes::upper_seq(crate::bytes::trim_spec(e))
}

/// The structure of a part with headers `hs` and body `body`: a `multipart/*` part splits on
/// its boundary (no boundary: no parts) and each segment is parsed as headers + body in turn;
/// any other part is a leaf with its size, and a line count for `text/*`.
pub open spec fn structure_spec(hs: Seq<(Seq<u8>, Seq<u8>)>, body: Seq<u8>) -> PartSpec
    decreases body.len(), 1int, 0int,
{
    let ct = ct_of(hs);
    let mt = ct_type(ct);
    let st = ct_subtype(ct);
    let params = ct_params(ct);
    if mt == crate::bytes::lit("multipart") {
        let parts = match param_value(params, crate::bytes::lit("boundary")) {
            Some(b) => parts_spec(multipart_segments(body, b), body.len()),
            None => seq![],
        };
        PartSpec::Multipart { subtype: st, parts, params }
    } else {
        PartSpec::Single {
            mime_type: mt,
            subtype: st,
            params,
            id: header_value(hs, crate::bytes::lit("Content-ID")),
            description: header_value(hs, crate::bytes::lit("Content-Description")),
            encoding: part_encoding(hs),
            octets: body.len(),
            lines: if mt == crate::bytes::lit("text") {
                count_lines_spec(body)
            } else {
                0
            },
        }
    }
}

/// The structures of the segments of a multipart body of length `n` (each segment is shorter
/// than its body; a segment that were not would be skipped).
pub open spec fn parts_spec(segs: Seq<Seq<u8>>, n: nat) -> Seq<PartSpec>
    decreases n, 0int, segs.len(),
{
    if segs.len() == 0 {
        seq![]
    } else {
        let prev = parts_spec(segs.drop_last(), n);
        let seg = segs.last();
        if seg.len() < n {
            proof {
                lemma_sep_from_bounds(seg, 0);
            }
            let off = body_offset_spec(seg);
            prev.push(
                structure_spec(
                    header_block_spec(seg.subrange(0, off)),
                    seg.subrange(off, seg.len() as int),
                ),
            )
        } else {
            prev
        }
    }
}

/// Text pairs as the pairs of their UTF-8 bytes.
pub open spec fn text_pairs_bytes(v: Seq<(Seq<char>, Seq<char>)>) -> Seq<(Seq<u8>, Seq<u8>)> {
    v.map_values(|p: (Seq<char>, Seq<char>)| (crate::bytes::utf8(p.0), crate::bytes::utf8(p.1)))
}

pub open spec fn opt_text_eq(o: Option<String>, m: Option<Seq<u8>>) -> bool {
    opt_view(o) == opt_text(m)
}

/// An executable body part is the model's text rendering: every byte string through
/// `String::from_utf8_lossy`, sizes equal.
pub open spec fn part_matches(p: BodyPart, m: PartSpec) -> bool
    decreases m,
{
    match m {
        PartSpec::Single {
            mime_type,
            subtype,
            params,
            id,
            description,
            encoding,
            octets,
            lines,
        } => match p {
            BodyPart::Single {
                mime_type: a,
                subtype: b,
                params: c,
                id: d,
                description: e,
                encoding: f,
                octets: g,
                lines: h,
            } => {
                &&& a@ == crate::text::utf8_lossy(mime_type)
                &&& b@ == crate::text::utf8_lossy(subtype)
                &&& headers_view(c@) == pairs_text(params)
                &&& opt_text_eq(d, id)
                &&& opt_text_eq(e, description)
                &&& f@ == crate::text::utf8_lossy(encoding)
                &&& g == octets
                &&& h == lines
            },
            _ => false,
        },
        PartSpec::Multipart { subtype, parts, params } => match p {
            BodyPart::Multipart { subtype: a, parts: b, params: c } => {
                &&& a@ == crate::text::utf8_lossy(subtype)
                &&& headers_view(c@) == pairs_text(params)
                &&& b@.len() == parts.len()
                &&& forall|i: int| 0 <= i < parts.len() ==> part_matches(#[trigger] b@[i], parts[i])
            },
            _ => false,
        },
    }
}

proof fn lemma_segments_shorter(body: Seq<u8>, boundary: Seq<u8>)
    ensures
        forall|k: int|
            0 <= k < multipart_segments(body, boundary).len() ==> #[trigger] multipart_segments(
                body,
                boundary,
            )[k].len() < body.len(),
{
    let d = seq![45u8, 45u8] + boundary;
    let p = delims_from(body, d, 0);
    lemma_delims(body, d, 0);
    if p.len() >= 2 {
        assert forall|k: int| 0 <= k < multipart_segments(body, boundary).len() implies #[trigger] multipart_segments(
            body,
            boundary,
        )[k].len() < body.len() by {
            lemma_multipart_index(body, boundary, k);
        }
    }
}

proof fn lemma_parts_push(segs: Seq<Seq<u8>>, n: nat, i: int)
    requires
        0 <= i < segs.len(),
        segs[i].len() < n,
    ensures
        parts_spec(segs.take(i + 1), n) == parts_spec(segs.take(i), n).push(
            structure_spec(
                header_block_spec(segs[i].subrange(0, body_offset_spec(segs[i]))),
                segs[i].subrange(body_offset_spec(segs[i]), segs[i].len() as int),
            ),
        ),
{
    assert(segs.take(i + 1).drop_last() =~= segs.take(i));
    assert(segs.take(i + 1).last() == segs[i]);
}

proof fn lemma_parts_len(segs: Seq<Seq<u8>>, n: nat)
    requires
        forall|k: int| 0 <= k < segs.len() ==> #[trigger] segs[k].len() < n,
    ensures
        parts_spec(segs, n).len() == segs.len(),
    decreases segs.len(),
{
    if segs.len() > 0 {
        lemma_parts_len(segs.drop_last(), n);
    }
}

fn opt_header(hs: &Vec<(Vec<u8>, Vec<u8>)>, name: &str) -> (r: Option<String>)
    ensures
        opt_text_eq(r, header_value(pairs_view(hs@), crate::bytes::lit(name))),
{
    match find_header(hs, name) {
        Some(k) => {
            assert(pairs_view(hs@)[k as int].1 == hs@[k as int].1@);
            Some(lossy_string(hs[k].1.as_slice()))
        },
        None => None,
    }
}

/// Parse the structure of a part given its headers and body.
pub fn parse_structure(hs: &Vec<(Vec<u8>, Vec<u8>)>, body: &[u8]) -> (r: BodyPart)
    ensures
        part_matches(r, structure_spec(pairs_view(hs@), body@)),
    decreases body@.len(),
{
    let ghost h = pairs_view(hs@);
    let ct = content_type_of(hs);
    let (mt, st, params) = parse_ct_bytes(ct.as_slice());
    let params_text = pairs_to_strings(&params);
    let st_text = lossy_string(st.as_slice());
    if is_lit(mt.as_slice(), "multipart") {
        let mut parts: Vec<BodyPart> = Vec::new();
        let ghost n = body@.len();
        match find_param(&params, "boundary") {
            Some(k) => {
                assert(pairs_view(params@)[k as int].1 == params@[k as int].1@);
                let segs = split_multipart(body, params[k].1.as_slice());
                let ghost sv = crate::bytes::views(segs@);
                proof {
                    lemma_segments_shorter(body@, params@[k as int].1@);
                }
                let mut i: usize = 0;
                while i < segs.len()
                    invariant
                        i <= segs@.len(),
                        sv == crate::bytes::views(segs@),
                        n == body@.len(),
                        forall|j: int| 0 <= j < sv.len() ==> #[trigger] sv[j].len() < n,
                        parts@.len() == i,
                        parts_spec(sv.take(i as int), n).len() == i,
                        forall|j: int|
                            0 <= j < i ==> part_matches(
                                #[trigger] parts@[j],
                                parts_spec(sv.take(i as int), n)[j],
                            ),
                    decreases segs@.len() - i,
                {
                    let seg = segs[i].as_slice();
                    assert(seg@ == sv[i as int]);
                    assert(seg@.len() < n);
                    let off = body_offset(seg);
                    let sh = parse_header_block_bytes(slice_of(seg, 0, off));
                    let sub = parse_structure(&sh, slice_of(seg, off, seg.len()));
                    proof {
                        lemma_parts_push(sv, n, i as int);
                    }
                    let ghost before = parts@;
                    parts.push(sub);
                    assert forall|j: int| 0 <= j < i + 1 implies part_matches(
                        #[trigger] parts@[j],
                        parts_spec(sv.take(i + 1), n)[j],
                    ) by {
                        if j < i {
                            assert(parts@[j] == before[j]);
                        }
                    }
                    i += 1;
                }
                assert(sv.take(i as int) =~= sv);
            },
            None => {},
        }
        BodyPart::Multipart { subtype: st_text, parts, params: params_text }
    } else {
        let octets = body.len();
        let lines = if is_lit(mt.as_slice(), "text") {
            count_lines(body)
        } else {
            0
        };
        let enc = match find_header(hs, "Content-Transfer-Encoding") {
            Some(k) => {
                assert(h[k as int].1 == hs@[k as int].1@);
                crate::bytes::to_upper(trim(hs[k].1.as_slice()))
            },
            None => crate::bytes::to_upper(trim(lit_vec("7BIT").as_slice())),
        };
        BodyPart::Single {
            mime_type: lossy_string(mt.as_slice()),
            subtype: st_text,
            params: params_text,
            id: opt_header(hs, "Content-ID"),
            description: opt_header(hs, "Content-Description"),
            encoding: lossy_string(enc.as_slice()),
            octets,
            lines,
        }
    }
}


// ---------------------------------------------------------------------------------------------
// Parsed message
// ---------------------------------------------------------------------------------------------

/// A parsed message: ordered headers, the raw body, and the MIME structure tree.
#[derive(Debug)]
pub struct ParsedMessage {
    pub headers: Vec<(String, String)>,
    pub body: Vec<u8>,
    pub structure: BodyPart,
}

/// The header bytes of a parsed message's headers.
pub open spec fn message_headers(p: &ParsedMessage) -> Seq<(Seq<u8>, Seq<u8>)> {
    text_pairs_bytes(headers_view(p.headers@))
}

fn text_pairs_to_bytes(v: &Vec<(String, String)>) -> (r: Vec<(Vec<u8>, Vec<u8>)>)
    ensures
        pairs_view(r@) == text_pairs_bytes(headers_view(v@)),
{
    let mut out: Vec<(Vec<u8>, Vec<u8>)> = Vec::new();
    let mut i: usize = 0;
    while i < v.len()
        invariant
            i <= v@.len(),
            pairs_view(out@) == text_pairs_bytes(headers_view(v@)).take(i as int),
        decreases v@.len() - i,
    {
        let ghost before = out@;
        let k = to_vec(v[i].0.as_str().as_bytes());
        let x = to_vec(v[i].1.as_str().as_bytes());
        out.push((k, x));
        assert(pairs_view(out@) =~= pairs_view(before).push((k@, x@)));
        assert(pairs_view(out@) =~= text_pairs_bytes(headers_view(v@)).take(i + 1));
        i += 1;
    }
    assert(text_pairs_bytes(headers_view(v@)).take(i as int) =~= text_pairs_bytes(
        headers_view(v@),
    ));
    out
}

/// `r` is the parse of `raw`: the unfolded header fields of the header block, the body after
/// it, and the MIME structure of both.
pub open spec fn is_parse_of(r: ParsedMessage, raw: Seq<u8>) -> bool {
    &&& headers_view(r.headers@) == pairs_text(header_block_spec(raw.subrange(0, body_offset_spec(raw))))
    &&& r.body@ == raw.subrange(body_offset_spec(raw), raw.len() as int)
    &&& part_matches(
        r.structure,
        structure_spec(
            header_block_spec(raw.subrange(0, body_offset_spec(raw))),
            raw.subrange(body_offset_spec(raw), raw.len() as int),
        ),
    )
}

impl ParsedMessage {
    /// Parse raw RFC 5322 bytes into headers + body + MIME structure.
    pub fn parse(raw: &[u8]) -> (r: ParsedMessage)
        ensures
            is_parse_of(r, raw@),
    {
        let off = body_offset(raw);
        let hs = parse_header_block_bytes(slice_of(raw, 0, off));
        let body = slice_of(raw, off, raw.len());
        let structure = parse_structure(&hs, body);
        ParsedMessage { headers: pairs_to_strings(&hs), body: to_vec(body), structure }
    }

    /// First header value (ASCII case-insensitive name match), unfolded.
    pub fn header(&self, name: &str) -> (r: Option<&str>)
        ensures
            ({
                let k = header_index(message_headers(self), crate::bytes::lit(name), 0);
                match r {
                    Some(v) => 0 <= k < self.headers@.len() && v@ == self.headers@[k].1@,
                    None => k == self.headers@.len(),
                }
            }),
    {
        let ghost h = message_headers(self);
        let mut i: usize = 0;
        while i < self.headers.len()
            invariant
                i <= self.headers@.len(),
                h == message_headers(self),
                h.len() == self.headers@.len(),
                header_index(h, crate::bytes::lit(name), i as int) == header_index(
                    h,
                    crate::bytes::lit(name),
                    0,
                ),
            decreases self.headers@.len() - i,
        {
            assert(h[i as int].0 == crate::bytes::utf8(self.headers@[i as int].0@));
            if eq_ci(self.headers[i].0.as_str().as_bytes(), name.as_bytes()) {
                return Some(self.headers[i].1.as_str());
            }
            i += 1;
        }
        None
    }

    /// The addresses in the first header named `name` (From/To/Cc/...), none when it is absent.
    pub fn addresses(&self, name: &str) -> (r: Vec<Address>)
        ensures
            ({
                let k = header_index(message_headers(self), crate::bytes::lit(name), 0);
                if 0 <= k < self.headers@.len() {
                    addresses_view(r@) == address_list_spec(
                        crate::bytes::utf8(self.headers@[k].1@),
                    )
                } else {
                    r@.len() == 0
                }
            }),
    {
        match self.header(name) {
            Some(v) => parse_address_list(v),
            None => Vec::new(),
        }
    }
}

/// The displayed text of a message body: the Content-Transfer-Encoding decoded, then the
/// charset of the Content-Type decoded (absent: treated as UTF-8).
pub open spec fn decoded_body_spec(hs: Seq<(Seq<u8>, Seq<u8>)>, body: Seq<u8>) -> (Seq<char>, bool) {
    let enc = match header_value(hs, crate::bytes::lit("Content-Transfer-Encoding")) {
        Some(v) => v,
        None => crate::bytes::lit("7bit"),
    };
    let cs = match param_value(ct_params(ct_of(hs)), crate::bytes::lit("charset")) {
        Some(v) => v,
        None => seq![],
    };
    decode_charset_spec(cte_spec(body, enc), cs)
}

/// The user-visible text of a parsed message body with the honest encoding-problem flag: the
/// one body-display path, so search matches what a user sees.
pub fn decoded_body_text(p: &ParsedMessage) -> (r: (String, bool))
    ensures
        (r.0@, r.1) == decoded_body_spec(message_headers(p), p.body@),
{
    let hs = text_pairs_to_bytes(&p.headers);
    let enc = match find_header(&hs, "Content-Transfer-Encoding") {
        Some(k) => {
            assert(pairs_view(hs@)[k as int].1 == hs@[k as int].1@);
            to_vec(hs[k].1.as_slice())
        },
        None => lit_vec("7bit"),
    };
    let raw = decode_transfer_encoding_bytes(p.body.as_slice(), enc.as_slice());
    let ct = content_type_of(&hs);
    let (_mt, _st, params) = parse_ct_bytes(ct.as_slice());
    let cs = match find_param(&params, "charset") {
        Some(k) => {
            assert(pairs_view(params@)[k as int].1 == params@[k as int].1@);
            to_vec(params[k].1.as_slice())
        },
        None => Vec::new(),
    };
    decode_charset_bytes(raw.as_slice(), cs.as_slice())
}


// ---------------------------------------------------------------------------------------------
// RFC 2047 encoded-words
// ---------------------------------------------------------------------------------------------

/// Q-encoding decode (RFC 2047 §4.2): `_` is SP, `=XX` a hex byte; a bad escape is malformed.
pub open spec fn q_from(t: Seq<u8>, i: int) -> Option<Seq<u8>>
    decreases t.len() - i,
{
    if i < 0 || i >= t.len() {
        Some(seq![])
    } else if t[i] == 95 {
        prepend(seq![32u8], q_from(t, i + 1))
    } else if t[i] == 61 {
        if i + 2 < t.len() && hex_digit(t[i + 1]) is Some && hex_digit(t[i + 2]) is Some {
            prepend(
                seq![(hex_digit(t[i + 1]).unwrap() * 16 + hex_digit(t[i + 2]).unwrap()) as u8],
                q_from(t, i + 3),
            )
        } else {
            None
        }
    } else {
        prepend(seq![t[i]], q_from(t, i + 1))
    }
}

/// `a` put before the result, if there is one.
pub open spec fn prepend(a: Seq<u8>, o: Option<Seq<u8>>) -> Option<Seq<u8>> {
    match o {
        Some(r) => Some(a + r),
        None => None,
    }
}

proof fn lemma_prepend(a: Seq<u8>, b: Seq<u8>, o: Option<Seq<u8>>)
    ensures
        prepend(a, prepend(b, o)) == prepend(a + b, o),
{
    if let Some(r) = o {
        assert(a + (b + r) =~= (a + b) + r);
    }
}

/// Q-decode encoded-word text (RFC 2047 §4.2); `None` on a malformed escape.
pub fn q_word_decode(text: &[u8]) -> (r: Option<Vec<u8>>)
    ensures
        match r {
            Some(v) => q_from(text@, 0) == Some(v@),
            None => q_from(text@, 0) is None,
        },
{
    let mut out: Vec<u8> = Vec::new();
    let mut i: usize = 0;
    assert(prepend(Seq::<u8>::empty(), q_from(text@, 0)) == q_from(text@, 0)) by {
        if let Some(r) = q_from(text@, 0) {
            assert(Seq::<u8>::empty() + r =~= r);
        }
    }
    while i < text.len()
        invariant
            i <= text@.len(),
            prepend(out@, q_from(text@, i as int)) == q_from(text@, 0),
        decreases text@.len() - i,
    {
        let ghost t = text@;
        let ghost before = out@;
        let b = text[i];
        if b == 95 {
            out.push(32);
            proof {
                lemma_prepend(before, seq![32u8], q_from(t, i + 1));
                assert(before + seq![32u8] =~= out@);
            }
            i += 1;
        } else if b == 61 {
            let n = text.len() - i;
            if n > 2 && hex_val(text[i + 1]).is_some() && hex_val(text[i + 2]).is_some() {
                let h = hex_val(text[i + 1]).unwrap();
                let l = hex_val(text[i + 2]).unwrap();
                out.push(h * 16 + l);
                proof {
                    lemma_prepend(before, seq![(h * 16 + l) as u8], q_from(t, i + 3));
                    assert(before + seq![(h * 16 + l) as u8] =~= out@);
                }
                i += 3;
            } else {
                return None;
            }
        } else {
            out.push(b);
            proof {
                lemma_prepend(before, seq![b], q_from(t, i + 1));
                assert(before + seq![b] =~= out@);
            }
            i += 1;
        }
    }
    assert(out@ + Seq::<u8>::empty() =~= out@);
    Some(out)
}

/// One encoded-word `=?charset?enc?text?=` at the start of `s`: the UTF-8 bytes of its decoded
/// text and the number of bytes it spans, or `None` when it is malformed (no `=?`, an empty or
/// over-long charset, an encoding other than B/Q, no `?=` terminator, a `?` or SP in the text,
/// or text that does not decode).
pub open spec fn ew_one(s: Seq<u8>) -> Option<(Seq<u8>, int)> {
    if !(s.len() >= 2 && s[0] == 61 && s[1] == 63) {
        None
    } else {
        let body = s.subrange(2, s.len() as int);
        let q1 = next_byte(body, 63, 0);
        if q1 >= body.len() || q1 == 0 || q1 > 60 {
            None
        } else {
            let charset = body.subrange(0, q1);
            let after = body.subrange(q1 + 1, body.len() as int);
            if after.len() < 2 || after[1] != 63 {
                None
            } else {
                let enc = after[0];
                let rest = after.subrange(2, after.len() as int);
                let te = first_qeq(rest, 0);
                if te >= rest.len() {
                    None
                } else {
                    let text = rest.subrange(0, te);
                    if next_byte(text, 63, 0) < text.len() || next_byte(text, 32, 0) < text.len() {
                        None
                    } else {
                        let bytes = if enc == 66 || enc == 98 {
                            crate::base64::b64_decode_spec(text)
                        } else if enc == 81 || enc == 113 {
                            q_from(text, 0)
                        } else {
                            None
                        };
                        match bytes {
                            None => None,
                            Some(b) => {
                                let cs = charset.subrange(0, next_byte(charset, 42, 0));
                                Some(
                                    (
                                        crate::bytes::utf8(decode_charset_spec(b, cs).0),
                                        2 + q1 + 1 + 1 + 1 + te + 2,
                                    ),
                                )
                            },
                        }
                    }
                }
            }
        }
    }
}

/// The first position at or after `i` where `?=` begins, or the length.
pub open spec fn first_qeq(s: Seq<u8>, i: int) -> int
    decreases s.len() - i,
{
    if i < 0 || i + 1 >= s.len() {
        s.len() as int
    } else if s[i] == 63 && s[i + 1] == 61 {
        i
    } else {
        first_qeq(s, i + 1)
    }
}

fn find_qeq(s: &[u8]) -> (r: usize)
    ensures
        r == first_qeq(s@, 0),
        r == s@.len() || r + 1 < s@.len(),
{
    let mut i: usize = 0;
    while i < s.len() && s.len() - i > 1
        invariant
            i <= s@.len(),
            first_qeq(s@, i as int) == first_qeq(s@, 0),
        decreases s@.len() - i,
    {
        if s[i] == 63 && s[i + 1] == 61 {
            return i;
        }
        i += 1;
    }
    s.len()
}

fn decode_one_encoded_word(s: &[u8]) -> (r: Option<(Vec<u8>, usize)>)
    ensures
        match r {
            Some((d, used)) => ew_one(s@) == Some((d@, used as int)),
            None => ew_one(s@) is None,
        },
{
    if !(s.len() >= 2 && s[0] == 61 && s[1] == 63) {
        return None;
    }
    let body = slice_of(s, 2, s.len());
    let q1 = scan_to(body, 63, 0);
    proof {
        lemma_next_byte(body@, 63, 0);
    }
    if q1 >= body.len() || q1 == 0 || q1 > 60 {
        return None;
    }
    let charset = slice_of(body, 0, q1);
    let after = slice_of(body, q1 + 1, body.len());
    if after.len() < 2 || after[1] != 63 {
        return None;
    }
    let enc = after[0];
    let rest = slice_of(after, 2, after.len());
    let te = find_qeq(rest);
    if te >= rest.len() {
        return None;
    }
    let text = slice_of(rest, 0, te);
    if scan_to(text, 63, 0) < text.len() || scan_to(text, 32, 0) < text.len() {
        return None;
    }
    let bytes = if enc == 66 || enc == 98 {
        crate::base64::base64_decode_bytes(text)
    } else if enc == 81 || enc == 113 {
        q_word_decode(text)
    } else {
        None
    };
    match bytes {
        None => None,
        Some(b) => {
            let star = scan_to(charset, 42, 0);
            proof {
                lemma_next_byte(charset@, 42, 0);
            }
            let cs = slice_of(charset, 0, star);
            let (decoded, _problem) = decode_charset_bytes(b.as_slice(), cs);
            let d = to_vec(decoded.as_str().as_bytes());
            Some((d, 2 + q1 + 1 + 1 + 1 + te + 2))
        },
    }
}

/// A run of encoded-words butted together, from position `j` of a token: the concatenation of
/// their decoded bytes, or `None` when any part is not an encoded-word.
pub open spec fn ew_run_from(tok: Seq<u8>, j: int) -> Option<Seq<u8>>
    decreases tok.len() - j,
{
    if j < 0 || j >= tok.len() {
        Some(seq![])
    } else {
        match ew_one(tok.subrange(j, tok.len() as int)) {
            None => None,
            Some((d, used)) => if used > 0 && j + used <= tok.len() {
                prepend(d, ew_run_from(tok, j + used))
            } else {
                None
            },
        }
    }
}

/// A whitespace-free token made entirely of encoded-words, decoded.
pub open spec fn ew_run(tok: Seq<u8>) -> Option<Seq<u8>> {
    if tok.len() >= 2 && tok[0] == 61 && tok[1] == 63 {
        ew_run_from(tok, 0)
    } else {
        None
    }
}

fn decode_encoded_word_run(tok: &[u8]) -> (r: Option<Vec<u8>>)
    ensures
        match r {
            Some(v) => ew_run(tok@) == Some(v@),
            None => ew_run(tok@) is None,
        },
{
    if !(tok.len() >= 2 && tok[0] == 61 && tok[1] == 63) {
        return None;
    }
    let mut out: Vec<u8> = Vec::new();
    let mut j: usize = 0;
    assert(prepend(Seq::<u8>::empty(), ew_run_from(tok@, 0)) == ew_run_from(tok@, 0)) by {
        if let Some(r) = ew_run_from(tok@, 0) {
            assert(Seq::<u8>::empty() + r =~= r);
        }
    }
    while j < tok.len()
        invariant
            j <= tok@.len(),
            prepend(out@, ew_run_from(tok@, j as int)) == ew_run_from(tok@, 0),
        decreases tok@.len() - j,
    {
        let ghost t = tok@;
        let ghost before = out@;
        match decode_one_encoded_word(slice_of(tok, j, tok.len())) {
            None => {
                return None;
            },
            Some((d, used)) => {
                if used == 0 {
                    return None;
                }
                if used > tok.len() - j {
                    return None;
                }
                push_all(&mut out, d.as_slice());
                proof {
                    lemma_prepend(before, d@, ew_run_from(t, j + used));
                }
                j += used;
            },
        }
    }
    assert(out@ + Seq::<u8>::empty() =~= out@);
    Some(out)
}

/// The first position at or after `i` that is not SP/TAB.
pub open spec fn skip_wsp(s: Seq<u8>, i: int) -> int
    decreases s.len() - i,
{
    if i < 0 || i >= s.len() {
        if i < 0 { 0 } else { s.len() as int }
    } else if crate::bytes::is_wsp(s[i]) {
        skip_wsp(s, i + 1)
    } else {
        i
    }
}

/// The first position at or after `i` that is SP/TAB, or the length.
pub open spec fn next_wsp(s: Seq<u8>, i: int) -> int
    decreases s.len() - i,
{
    if i < 0 || i >= s.len() {
        if i < 0 { 0 } else { s.len() as int }
    } else if crate::bytes::is_wsp(s[i]) {
        i
    } else {
        next_wsp(s, i + 1)
    }
}

pub proof fn lemma_skip_next(s: Seq<u8>, i: int)
    requires
        0 <= i <= s.len(),
    ensures
        i <= skip_wsp(s, i) <= s.len(),
        skip_wsp(s, i) <= next_wsp(s, skip_wsp(s, i)) <= s.len(),
    decreases s.len() - i,
{
    if i < s.len() && crate::bytes::is_wsp(s[i]) {
        lemma_skip_next(s, i + 1);
    } else {
        lemma_next_wsp(s, i);
    }
}

pub proof fn lemma_next_wsp(s: Seq<u8>, i: int)
    requires
        0 <= i <= s.len(),
    ensures
        i <= next_wsp(s, i) <= s.len(),
    decreases s.len() - i,
{
    if i < s.len() && !crate::bytes::is_wsp(s[i]) {
        lemma_next_wsp(s, i + 1);
    }
}

/// The decoded header value from position `i`: each SP/TAB-delimited token that is a run of
/// encoded-words is replaced by its text, other tokens stay verbatim, and the white space
/// before a decoded token is dropped when the previous token was decoded too (RFC 2047 §6.2).
pub open spec fn ew_from(s: Seq<u8>, i: int, last_enc: bool) -> Seq<u8>
    decreases s.len() - i,
{
    if i < 0 || i >= s.len() {
        seq![]
    } else {
        proof {
            lemma_skip_next(s, i);
        }
        let ws_end = skip_wsp(s, i);
        let tok_end = next_wsp(s, ws_end);
        let ws = s.subrange(i, ws_end);
        let tok = s.subrange(ws_end, tok_end);
        if tok.len() == 0 {
            ws
        } else {
            match ew_run(tok) {
                Some(d) => (if last_enc { seq![] } else { ws }) + d + ew_from(s, tok_end, true),
                None => ws + tok + ew_from(s, tok_end, false),
            }
        }
    }
}

/// Decode RFC 2047 encoded-words in a header value given as bytes; the result is bytes.
#[verifier::rlimit(60)]
pub fn decode_encoded_words_bytes(input: &[u8]) -> (r: Vec<u8>)
    ensures
        r@ == ew_from(input@, 0, false),
{
    let mut out: Vec<u8> = Vec::new();
    let mut i: usize = 0;
    let mut last_was_encoded = false;
    while i < input.len()
        invariant
            i <= input@.len(),
            out@ + ew_from(input@, i as int, last_was_encoded) == ew_from(input@, 0, false),
        decreases input@.len() - i,
    {
        let ghost s = input@;
        let ghost before = out@;
        let ghost last0 = last_was_encoded;
        proof {
            lemma_skip_next(s, i as int);
        }
        let mut ws_end = i;
        while ws_end < input.len() && (input[ws_end] == 32 || input[ws_end] == 9)
            invariant
                i <= ws_end <= input@.len(),
                skip_wsp(s, ws_end as int) == skip_wsp(s, i as int),
                s == input@,
            decreases input@.len() - ws_end,
        {
            ws_end += 1;
        }
        let mut tok_end = ws_end;
        while tok_end < input.len() && !(input[tok_end] == 32 || input[tok_end] == 9)
            invariant
                ws_end <= tok_end <= input@.len(),
                next_wsp(s, tok_end as int) == next_wsp(s, ws_end as int),
                s == input@,
            decreases input@.len() - tok_end,
        {
            tok_end += 1;
        }
        let ws = slice_of(input, i, ws_end);
        let tok = slice_of(input, ws_end, tok_end);
        if tok.len() == 0 {
            push_all(&mut out, ws);
            assert(out@ + ew_from(s, input@.len() as int, last_was_encoded) =~= before + ew_from(
                s,
                i as int,
                last0,
            ));
            i = input.len();
        } else {
            match decode_encoded_word_run(tok) {
                Some(decoded) => {
                    if !last_was_encoded {
                        push_all(&mut out, ws);
                    }
                    push_all(&mut out, decoded.as_slice());
                    last_was_encoded = true;
                    assert(out@ + ew_from(s, tok_end as int, true) =~= before + ew_from(
                        s,
                        i as int,
                        last0,
                    ));
                },
                None => {
                    push_all(&mut out, ws);
                    push_all(&mut out, tok);
                    last_was_encoded = false;
                    assert(out@ + ew_from(s, tok_end as int, false) =~= before + ew_from(
                        s,
                        i as int,
                        last0,
                    ));
                },
            }
            i = tok_end;
        }
    }
    assert(out@ + Seq::<u8>::empty() =~= out@);
    out
}

/// Decode RFC 2047 encoded-words (`=?charset?B|Q?text?=`) in an unfolded header value. Anything
/// malformed passes through verbatim, and the white space between two adjacent encoded-words
/// is elided (§6.2).
pub fn decode_encoded_words(input: &str) -> (r: String)
    ensures
        r@ == crate::text::utf8_lossy(ew_from(crate::bytes::lit(input), 0, false)),
{
    let b = decode_encoded_words_bytes(input.as_bytes());
    lossy_string(b.as_slice())
}


// ---------------------------------------------------------------------------------------------
// RFC 2047 encoding (header values toward the legacy wire)
// ---------------------------------------------------------------------------------------------

/// Bytes of text per encoded-word: `=?UTF-8?B?` + base64 of 30 bytes + `?=` is 52 characters,
/// which keeps every folded line under the RFC 5322 78-character limit.
pub const ENCODED_WORD_MAX_BYTES: usize = 30;

/// A UTF-8 continuation byte.
pub open spec fn is_cont(b: u8) -> bool {
    128 <= b < 192
}

/// The first position at or after `j` that starts a character (or the length).
pub open spec fn next_start(s: Seq<u8>, j: int) -> int
    decreases s.len() - j,
{
    if j >= s.len() {
        s.len() as int
    } else if j < 0 || !is_cont(s[j]) {
        j
    } else {
        next_start(s, j + 1)
    }
}

pub proof fn lemma_next_start(s: Seq<u8>, j: int)
    requires
        0 <= j <= s.len(),
    ensures
        j <= next_start(s, j) <= s.len(),
    decreases s.len() - j,
{
    if j < s.len() && is_cont(s[j]) {
        lemma_next_start(s, j + 1);
    }
}

/// The text split into chunks of whole characters, each of at most 30 bytes unless a single
/// character is longer, filled greedily from position `i` on.
pub open spec fn chunk_fold(s: Seq<u8>, i: int, chunk: Seq<u8>, words: Seq<Seq<u8>>) -> Seq<Seq<u8>>
    decreases s.len() - i,
{
    if i < 0 || i >= s.len() {
        if chunk.len() > 0 {
            words.push(chunk)
        } else {
            words
        }
    } else {
        proof {
            lemma_next_start(s, i + 1);
        }
        let e = next_start(s, i + 1);
        let c = s.subrange(i, e);
        if chunk.len() + c.len() > 30 && chunk.len() > 0 {
            chunk_fold(s, e, c, words.push(chunk))
        } else {
            chunk_fold(s, e, chunk + c, words)
        }
    }
}

/// One UTF-8 B-encoded-word.
pub open spec fn b_word(chunk: Seq<u8>) -> Seq<u8> {
    crate::bytes::lit("=?UTF-8?B?") + crate::base64::b64_encode_spec(chunk) + crate::bytes::lit(
        "?=",
    )
}

/// Encoded-words joined with folding white space (CRLF SP).
pub open spec fn join_words(ws: Seq<Seq<u8>>) -> Seq<u8>
    decreases ws.len(),
{
    if ws.len() == 0 {
        seq![]
    } else if ws.len() == 1 {
        b_word(ws[0])
    } else {
        join_words(ws.drop_last()) + seq![13u8, 10u8, 32u8] + b_word(ws.last())
    }
}

/// A header value for the wire: printable ASCII passes through verbatim; anything else becomes
/// UTF-8 B-encoded-words of at most 30 bytes each, folded with CRLF SP.
pub open spec fn encode_header_spec(v: Seq<u8>) -> Seq<u8> {
    if wire_safe(v) {
        v
    } else {
        join_words(chunk_fold(v, 0, seq![], seq![]))
    }
}

fn push_word(out: &mut Vec<u8>, first: bool, chunk: &[u8], ws: Ghost<Seq<Seq<u8>>>)
    requires
        old(out)@ == join_words(ws@),
        first == (ws@.len() == 0),
    ensures
        final(out)@ == join_words(ws@.push(chunk@)),
{
    if !first {
        out.push(13);
        out.push(10);
        out.push(32);
    }
    push_lit(out, "=?UTF-8?B?");
    let b = crate::base64::base64_encode_bytes(chunk);
    push_all(out, b.as_slice());
    push_lit(out, "?=");
    assert(ws@.push(chunk@).drop_last() =~= ws@);
    if first {
        assert(join_words(ws@.push(chunk@)) == b_word(chunk@));
    }
    assert(final(out)@ =~= join_words(ws@.push(chunk@)));
}

/// [`encode_header_value`] on bytes.
pub fn encode_header_bytes(v: &[u8]) -> (r: Vec<u8>)
    ensures
        r@ == encode_header_spec(v@),
{
    if is_wire_safe_ascii(v) {
        return to_vec(v);
    }
    let mut out: Vec<u8> = Vec::new();
    let mut chunk: Vec<u8> = Vec::new();
    let ghost mut words: Seq<Seq<u8>> = seq![];
    let mut first = true;
    let mut i: usize = 0;
    while i < v.len()
        invariant
            i <= v@.len(),
            first == (words.len() == 0),
            chunk@.len() <= i,
            out@ == join_words(words),
            chunk_fold(v@, i as int, chunk@, words) == chunk_fold(v@, 0, seq![], seq![]),
        decreases v@.len() - i,
    {
        proof {
            lemma_next_start(v@, i + 1);
        }
        let mut e = i + 1;
        while e < v.len() && 128 <= v[e] && v[e] < 192
            invariant
                i < e <= v@.len(),
                next_start(v@, e as int) == next_start(v@, i + 1),
            decreases v@.len() - e,
        {
            e += 1;
        }
        let c = slice_of(v, i, e);
        if chunk.len() + c.len() > ENCODED_WORD_MAX_BYTES && chunk.len() > 0 {
            push_word(&mut out, first, chunk.as_slice(), Ghost(words));
            proof {
                words = words.push(chunk@);
            }
            first = false;
            chunk = to_vec(c);
        } else {
            let ghost before = chunk@;
            push_all(&mut chunk, c);
        }
        i = e;
    }
    if chunk.len() > 0 {
        push_word(&mut out, first, chunk.as_slice(), Ghost(words));
        proof {
            words = words.push(chunk@);
        }
    }
    out
}

/// Encode a header value for the RFC 5322 wire (RFC 2047 encoded-words for non-ASCII text).
pub fn encode_header_value(v: &str) -> (r: String)
    ensures
        r@ == crate::text::utf8_lossy(encode_header_spec(crate::bytes::lit(v))),
{
    let b = encode_header_bytes(v.as_bytes());
    lossy_string(b.as_slice())
}

/// A display-name byte that may stand in an RFC 5322 atom phrase unquoted: a letter, a digit,
/// SP, or one of ``!#$%&'*+-/=?^_`{|}~.``.
pub open spec fn atom_safe_byte(b: u8) -> bool {
    ||| (48 <= b <= 57) || (65 <= b <= 90) || (97 <= b <= 122)
    ||| b == 32 || b == 33 || (35 <= b <= 39) || b == 42 || b == 43 || b == 45 || b == 46
    ||| b == 47 || b == 61 || b == 63 || (94 <= b <= 96) || (123 <= b <= 126)
}

fn is_atom_safe_byte(b: u8) -> (r: bool)
    ensures
        r == atom_safe_byte(b),
{
    (48 <= b && b <= 57) || (65 <= b && b <= 90) || (97 <= b && b <= 122) || b == 32 || b == 33 || (
    35 <= b && b <= 39) || b == 42 || b == 43 || b == 45 || b == 46 || b == 47 || b == 61 || b
        == 63 || (94 <= b && b <= 96) || (123 <= b && b <= 126)
}

/// A display name inside double quotes with `"` and `\` escaped by a backslash.
pub open spec fn escape_quoted(s: Seq<u8>) -> Seq<u8>
    decreases s.len(),
{
    if s.len() == 0 {
        seq![]
    } else {
        escape_quoted(s.drop_last()) + if s.last() == 34 || s.last() == 92 {
            seq![92u8, s.last()]
        } else {
            seq![s.last()]
        }
    }
}

/// A display name for the wire: non-ASCII becomes encoded-words, ASCII with phrase specials
/// becomes a quoted string, anything else stays verbatim.
pub open spec fn display_name_spec(v: Seq<u8>) -> Seq<u8> {
    if !wire_safe(v) {
        encode_header_spec(v)
    } else if forall|i: int| 0 <= i < v.len() ==> atom_safe_byte(#[trigger] v[i]) {
        v
    } else {
        seq![34u8] + escape_quoted(v) + seq![34u8]
    }
}

/// Encode an address display-name for the wire (RFC 5322 `display-name`).
pub fn encode_display_name(name: &str) -> (r: String)
    ensures
        r@ == crate::text::utf8_lossy(display_name_spec(crate::bytes::lit(name))),
{
    let b = display_name_bytes(name.as_bytes());
    lossy_string(b.as_slice())
}

/// The wire form of a display name, as bytes (see [`display_name_spec`]).
pub fn display_name_bytes(v: &[u8]) -> (r: Vec<u8>)
    ensures
        r@ == display_name_spec(v@),
{
    if !is_wire_safe_ascii(v) {
        return encode_header_bytes(v);
    }
    let mut safe = true;
    let mut i: usize = 0;
    while i < v.len()
        invariant
            i <= v@.len(),
            safe == forall|j: int| 0 <= j < i ==> atom_safe_byte(#[trigger] v@[j]),
        decreases v@.len() - i,
    {
        safe = safe && is_atom_safe_byte(v[i]);
        i += 1;
    }
    if safe {
        return crate::bytes::to_vec(v);
    }
    let mut out: Vec<u8> = Vec::new();
    out.push(34);
    let mut k: usize = 0;
    assert(v@.take(0) =~= Seq::<u8>::empty());
    while k < v.len()
        invariant
            k <= v@.len(),
            out@ == seq![34u8] + escape_quoted(v@.take(k as int)),
        decreases v@.len() - k,
    {
        assert(v@.take(k + 1).drop_last() =~= v@.take(k as int));
        let b = v[k];
        if b == 34 || b == 92 {
            out.push(92);
        }
        out.push(b);
        assert(out@ =~= seq![34u8] + escape_quoted(v@.take(k + 1)));
        k += 1;
    }
    assert(v@.take(k as int) =~= v@);
    out.push(34);
    assert(out@ =~= seq![34u8] + escape_quoted(v@) + seq![34u8]);
    assert(display_name_spec(v@) == seq![34u8] + escape_quoted(v@) + seq![34u8]);
    out
}


/// A byte that is none of the address-list specials: quote, angle brackets, comma, `@`.
pub open spec fn plain_addr_byte(b: u8) -> bool {
    b != 34 && b != 60 && b != 62 && b != 44 && b != 64
}

proof fn lemma_split_push(s: Seq<u8>, c: u8)
    ensures
        addr_split_state(s.push(c)) == ({
            let (out, cur, q, a) = addr_split_state(s);
            if c == 34 {
                (out, cur.push(c), !q, a)
            } else if c == 60 && !q {
                (out, cur.push(c), q, true)
            } else if c == 62 && !q {
                (out, cur.push(c), q, false)
            } else if c == 44 && !q && !a {
                (out.push(cur), seq![], q, a)
            } else {
                (out, cur.push(c), q, a)
            }
        }),
{
    assert(s.push(c).drop_last() =~= s);
}

/// Bytes that are not specials only grow the current piece.
proof fn lemma_split_plain(s: Seq<u8>, w: Seq<u8>)
    requires
        forall|i: int| 0 <= i < w.len() ==> plain_addr_byte(#[trigger] w[i]),
    ensures
        addr_split_state(s + w) == ({
            let (out, cur, q, a) = addr_split_state(s);
            (out, cur + w, q, a)
        }),
    decreases w.len(),
{
    if w.len() == 0 {
        assert(s + w =~= s);
        let (out, cur, q, a) = addr_split_state(s);
        assert(cur + w =~= cur);
    } else {
        lemma_split_plain(s, w.drop_last());
        assert(s + w =~= (s + w.drop_last()).push(w.last()));
        lemma_split_push(s + w.drop_last(), w.last());
        let (out, cur, q, a) = addr_split_state(s);
        assert((cur + w.drop_last()).push(w.last()) =~= cur + w);
    }
}

/// Inside quotes every byte but a quote only grows the current piece (a comma included).
proof fn lemma_split_quoted(s: Seq<u8>, w: Seq<u8>)
    requires
        addr_split_state(s).2,
        forall|i: int| 0 <= i < w.len() ==> #[trigger] w[i] != 34,
    ensures
        addr_split_state(s + w) == ({
            let (out, cur, q, a) = addr_split_state(s);
            (out, cur + w, q, a)
        }),
    decreases w.len(),
{
    if w.len() == 0 {
        assert(s + w =~= s);
        let (out, cur, q, a) = addr_split_state(s);
        assert(cur + w =~= cur);
    } else {
        lemma_split_quoted(s, w.drop_last());
        assert(s + w =~= (s + w.drop_last()).push(w.last()));
        lemma_split_push(s + w.drop_last(), w.last());
        let (out, cur, q, a) = addr_split_state(s);
        assert((cur + w.drop_last()).push(w.last()) =~= cur + w);
    }
}

proof fn lemma_trim_fixed(x: Seq<u8>)
    requires
        x.len() > 0,
        !crate::bytes::is_ws(x[0]),
        !crate::bytes::is_ws(x.last()),
    ensures
        crate::bytes::trim_spec(x) == x,
{
    assert(crate::bytes::lead_ws(x) == 0);
    assert(crate::bytes::trim_start_spec(x) =~= x);
    assert(crate::bytes::trail_ws(x) == 0);
    assert(crate::bytes::trim_end_spec(x) =~= x);
}

/// The address text `"q" <local@host>`.
pub open spec fn quoted_addr(q: Seq<u8>, local: Seq<u8>, host: Seq<u8>) -> Seq<u8> {
    seq![34u8] + q + seq![34u8, 32u8, 60u8] + local + seq![64u8] + host + seq![62u8]
}

/// The conditions of [`law_quoted_name_is_one_address`].
pub open spec fn quoted_addr_ok(q: Seq<u8>, local: Seq<u8>, host: Seq<u8>) -> bool {
    &&& q.len() > 0
    &&& !crate::bytes::is_ws(q[0])
    &&& !crate::bytes::is_ws(q.last())
    &&& forall|i: int| 0 <= i < q.len() ==> #[trigger] q[i] != 34 && q[i] != 60 && q[i] != 62
    &&& local.len() > 0
    &&& host.len() > 0
    &&& forall|i: int| 0 <= i < local.len() ==> plain_addr_byte(#[trigger] local[i]) && !crate::bytes::is_ws(local[i])
    &&& forall|i: int| 0 <= i < host.len() ==> plain_addr_byte(#[trigger] host[i]) && !crate::bytes::is_ws(host[i])
}

proof fn lemma_quoted_one_piece(q: Seq<u8>, local: Seq<u8>, host: Seq<u8>)
    requires
        quoted_addr_ok(q, local, host),
    ensures
        split_addresses_spec(quoted_addr(q, local, host)) == seq![quoted_addr(q, local, host)],
        crate::bytes::trim_spec(quoted_addr(q, local, host)) == quoted_addr(q, local, host),
{
    let v = quoted_addr(q, local, host);
    let s0 = Seq::<u8>::empty().push(34u8);
    lemma_split_push(Seq::<u8>::empty(), 34u8);
    assert(addr_split_state(Seq::<u8>::empty()) == (Seq::<Seq<u8>>::empty(), Seq::<u8>::empty(), false, false));
    lemma_split_quoted(s0, q);
    let s1 = s0 + q;
    lemma_split_push(s1, 34u8);
    let s2 = s1.push(34u8);
    lemma_split_push(s2, 32u8);
    let s3 = s2.push(32u8);
    lemma_split_push(s3, 60u8);
    let s4 = s3.push(60u8);
    lemma_split_plain(s4, local);
    let s5 = s4 + local;
    lemma_split_push(s5, 64u8);
    let s6 = s5.push(64u8);
    lemma_split_plain(s6, host);
    let s7 = s6 + host;
    lemma_split_push(s7, 62u8);
    let s8 = s7.push(62u8);
    assert(s8 =~= v);
    let (out, cur, _qq, _aa) = addr_split_state(v);
    assert(out.len() == 0);
    assert(cur =~= v);
    assert(v[0] == 34u8);
    assert(v.last() == 62u8);
    lemma_trim_fixed(v);
    assert(split_addresses_spec(v) =~= seq![v]);
}

proof fn lemma_quoted_name(q: Seq<u8>)
    requires
        q.len() > 0,
        !crate::bytes::is_ws(q[0]),
        !crate::bytes::is_ws(q.last()),
        forall|i: int| 0 <= i < q.len() ==> #[trigger] q[i] != 34,
    ensures
        crate::bytes::trim_spec(trim_quotes_spec(crate::bytes::trim_spec((seq![34u8] + q + seq![34u8]).push(32u8)))) == q,
{
    let pq = seq![34u8] + q + seq![34u8];
    let pre = pq.push(32u8);
    assert(pq.last() == 34u8);
    assert(crate::bytes::trail_ws(pq) == 0);
    assert(pre.drop_last() =~= pq);
    assert(crate::bytes::trail_ws(pre) == 1);
    assert(pre[0] == 34u8);
    assert(crate::bytes::lead_ws(pre) == 0);
    assert(crate::bytes::trim_start_spec(pre) =~= pre);
    assert(crate::bytes::trim_spec(pre) =~= pq);
    assert(pq.drop_first() =~= q + seq![34u8]);
    assert((q + seq![34u8])[0] == q[0]);
    assert(lead_quotes(q + seq![34u8]) == 0);
    assert(lead_quotes(pq) == 1);
    let t = pq.subrange(1, pq.len() as int);
    assert(t =~= q + seq![34u8]);
    assert(t.drop_last() =~= q);
    assert(trail_quotes(q) == 0);
    assert(trail_quotes(t) == 1);
    assert(trim_quotes_spec(pq) =~= q);
    lemma_trim_fixed(q);
}

proof fn lemma_quoted_text(q: Seq<u8>, local: Seq<u8>, host: Seq<u8>)
    requires
        quoted_addr_ok(q, local, host),
    ensures
        address_text(quoted_addr(q, local, host)) == (
            Some(crate::text::utf8_lossy(q)),
            None::<Seq<char>>,
            Some(crate::text::utf8_lossy(local)),
            Some(crate::text::utf8_lossy(host)),
        ),
{
    let v = quoted_addr(q, local, host);
    let lt: int = q.len() as int + 3;
    assert(v[lt] == 60u8);
    lemma_next_byte(v, 60, 0);
    assert forall|j: int| 0 <= j < lt implies #[trigger] v[j] != 60 by {
        if 1 <= j < q.len() + 1 {
            assert(v[j] == q[j - 1]);
        }
    }
    assert(next_byte(v, 60, 0) == lt);
    assert(v.last() == 62u8);
    assert(prev_byte(v, 62, v.len() as int) == v.len() - 1);
    assert(v.subrange(0, lt) =~= (seq![34u8] + q + seq![34u8]).push(32u8));
    lemma_quoted_name(q);
    let addr = v.subrange(lt + 1, v.len() - 1);
    assert(addr =~= local + seq![64u8] + host);
    lemma_trim_fixed(addr);
    let at = local.len() as int;
    assert(addr[at] == 64u8);
    lemma_next_byte(addr, 64, 0);
    assert forall|j: int| 0 <= j < at implies #[trigger] addr[j] != 64 by {
        assert(addr[j] == local[j]);
    }
    assert(next_byte(addr, 64, 0) == at);
    assert(addr.subrange(0, at) =~= local);
    assert(addr.subrange(at + 1, addr.len() as int) =~= host);
}

/// A comma inside a quoted display name does not separate addresses: `"q" <local@host>`, with
/// `q` free of quotes and angle brackets (commas allowed) and no white space at its ends, is
/// one address whose display name is `q` (unquoted), mailbox `local` and host `host`.
pub proof fn law_quoted_name_is_one_address(q: Seq<u8>, local: Seq<u8>, host: Seq<u8>)
    requires
        quoted_addr_ok(q, local, host),
    ensures
        address_list_spec(quoted_addr(q, local, host)) == seq![
            (
                Some(crate::text::utf8_lossy(q)),
                None::<Seq<char>>,
                Some(crate::text::utf8_lossy(local)),
                Some(crate::text::utf8_lossy(host)),
            ),
        ],
{
    let v = quoted_addr(q, local, host);
    lemma_quoted_one_piece(q, local, host);
    lemma_quoted_text(q, local, host);
    assert(seq![v].drop_last() =~= Seq::<Seq<u8>>::empty());
    assert(address_pieces(Seq::<Seq<u8>>::empty()) == Seq::<Seq<u8>>::empty());
    assert(seq![v].last() == v);
    assert(address_pieces(seq![v]) == address_pieces(Seq::<Seq<u8>>::empty()).push(v));
    assert(address_pieces(seq![v]) =~= seq![v]);
    assert(address_list_spec(v) =~= seq![address_text(v)]);
}

} // verus!
