//! Base64 (RFC 4648 §4, standard alphabet, `=` padding), as SASL (RFC 4616 / RFC 4954), MIME
//! `Content-Transfer-Encoding: base64` (RFC 2045 §6.8) and RFC 2047 B-words use it.
//!
//! Decoding ignores ASCII white space anywhere in the input (MIME bodies fold base64 into lines);
//! what remains must be a whole number of 4-character groups, with padding only in the last one.
use vstd::prelude::*;
use crate::bytes::byte_is_ws;

verus! {

/// The alphabet character for a 6-bit value.
pub open spec fn b64_char(v: u8) -> u8 {
    if v < 26 {
        (v + 65) as u8
    } else if v < 52 {
        (v - 26 + 97) as u8
    } else if v < 62 {
        (v - 52 + 48) as u8
    } else if v == 62 {
        43u8
    } else {
        47u8
    }
}

/// The 6-bit value of an alphabet character, `None` for anything else (including `=`).
pub open spec fn b64_val(c: u8) -> Option<u8> {
    if 65 <= c <= 90 {
        Some((c - 65) as u8)
    } else if 97 <= c <= 122 {
        Some((c - 97 + 26) as u8)
    } else if 48 <= c <= 57 {
        Some((c - 48 + 52) as u8)
    } else if c == 43 {
        Some(62u8)
    } else if c == 47 {
        Some(63u8)
    } else {
        None
    }
}

/// The four characters that encode the bytes `a b c`.
pub open spec fn b64_quad(a: u8, b: u8, c: u8) -> Seq<u8> {
    seq![
        b64_char(a >> 2),
        b64_char(((a & 3u8) << 4u8) | (b >> 4u8)),
        b64_char(((b & 15u8) << 2u8) | (c >> 6u8)),
        b64_char(c & 63u8),
    ]
}

/// Base64 encoding with padding.
pub open spec fn b64_encode_spec(s: Seq<u8>) -> Seq<u8>
    decreases s.len(),
{
    if s.len() == 0 {
        seq![]
    } else if s.len() == 1 {
        b64_quad(s[0], 0, 0).take(2) + seq![61u8, 61u8]
    } else if s.len() == 2 {
        b64_quad(s[0], s[1], 0).take(3) + seq![61u8]
    } else {
        b64_quad(s[0], s[1], s[2]) + b64_encode_spec(s.skip(3))
    }
}

/// The bytes a group of four 6-bit values decodes to.
pub open spec fn b64_triple(a: u8, b: u8, c: u8, d: u8) -> Seq<u8> {
    seq![((a << 2u8) | (b >> 4u8)) as u8, ((b << 4u8) | (c >> 2u8)) as u8, ((c << 6u8) | d) as u8]
}

/// Decode white-space-free base64 text.
pub open spec fn b64_decode_clean(s: Seq<u8>) -> Option<Seq<u8>>
    decreases s.len(),
{
    if s.len() == 0 {
        Some(seq![])
    } else if s.len() < 4 {
        None
    } else {
        let (a, b, c, d) = (b64_val(s[0]), b64_val(s[1]), b64_val(s[2]), b64_val(s[3]));
        if a is Some && b is Some && c is Some && d is Some {
            match b64_decode_clean(s.skip(4)) {
                Some(rest) => Some(b64_triple(a->0, b->0, c->0, d->0) + rest),
                None => None,
            }
        } else if s.len() == 4 && a is Some && b is Some && c is Some && s[3] == 61 {
            Some(b64_triple(a->0, b->0, c->0, 0).take(2))
        } else if s.len() == 4 && a is Some && b is Some && s[2] == 61 && s[3] == 61 {
            Some(b64_triple(a->0, b->0, 0, 0).take(1))
        } else {
            None
        }
    }
}

/// `s` with every ASCII white-space byte removed.
pub open spec fn strip_ws(s: Seq<u8>) -> Seq<u8>
    decreases s.len(),
{
    if s.len() == 0 {
        seq![]
    } else if crate::bytes::is_ws(s.last()) {
        strip_ws(s.drop_last())
    } else {
        strip_ws(s.drop_last()).push(s.last())
    }
}

/// Base64 decoding: white space is ignored, anything else outside the alphabet is an error.
pub open spec fn b64_decode_spec(s: Seq<u8>) -> Option<Seq<u8>> {
    b64_decode_clean(strip_ws(s))
}

proof fn lemma_char_val(v: u8)
    requires
        v < 64,
    ensures
        b64_val(b64_char(v)) == Some(v),
        b64_char(v) != 61,
        !crate::bytes::is_ws(b64_char(v)),
{
}

proof fn lemma_quad_decodes(a: u8, b: u8, c: u8)
    ensures
        a >> 2 < 64,
        ((a & 3u8) << 4u8) | (b >> 4u8) < 64,
        ((b & 15u8) << 2u8) | (c >> 6u8) < 64,
        c & 63u8 < 64,
        b64_triple(
            a >> 2,
            ((a & 3u8) << 4u8) | (b >> 4u8),
            ((b & 15u8) << 2u8) | (c >> 6u8),
            c & 63u8,
        ) == seq![a, b, c],
{
    let w = a >> 2;
    let x = ((a & 3u8) << 4u8) | (b >> 4u8);
    let y = ((b & 15u8) << 2u8) | (c >> 6u8);
    let z = c & 63u8;
    assert(w < 64 && x < 64 && y < 64 && z < 64) by (bit_vector)
        requires
            w == a >> 2,
            x == ((a & 3u8) << 4u8) | (b >> 4u8),
            y == ((b & 15u8) << 2u8) | (c >> 6u8),
            z == c & 63u8,
    ;
    assert(((w << 2u8) | (x >> 4u8)) as u8 == a && ((x << 4u8) | (y >> 2u8)) as u8 == b && ((y
        << 6u8) | z) as u8 == c) by (bit_vector)
        requires
            w == a >> 2,
            x == ((a & 3u8) << 4u8) | (b >> 4u8),
            y == ((b & 15u8) << 2u8) | (c >> 6u8),
            z == c & 63u8,
    ;
    assert(b64_triple(w, x, y, z) =~= seq![a, b, c]);
}

proof fn lemma_strip_ws_none(s: Seq<u8>)
    requires
        forall|i: int| 0 <= i < s.len() ==> !crate::bytes::is_ws(#[trigger] s[i]),
    ensures
        strip_ws(s) == s,
    decreases s.len(),
{
    if s.len() > 0 {
        lemma_strip_ws_none(s.drop_last());
        assert(s.drop_last().push(s.last()) =~= s);
    }
}

proof fn lemma_quad_chars(a: u8, b: u8, c: u8)
    ensures
        ({
            let q = b64_quad(a, b, c);
            let w = a >> 2;
            let x = ((a & 3u8) << 4u8) | (b >> 4u8);
            let y = ((b & 15u8) << 2u8) | (c >> 6u8);
            let z = c & 63u8;
            &&& b64_val(q[0]) == Some(w)
            &&& b64_val(q[1]) == Some(x)
            &&& b64_val(q[2]) == Some(y)
            &&& b64_val(q[3]) == Some(z)
            &&& forall|i: int| 0 <= i < 4 ==> q[i] != 61 && !crate::bytes::is_ws(#[trigger] q[i])
            &&& b64_triple(w, x, y, z) == seq![a, b, c]
        }),
{
    lemma_quad_decodes(a, b, c);
    let w = a >> 2;
    let x = ((a & 3u8) << 4u8) | (b >> 4u8);
    let y = ((b & 15u8) << 2u8) | (c >> 6u8);
    let z = c & 63u8;
    lemma_char_val(w);
    lemma_char_val(x);
    lemma_char_val(y);
    lemma_char_val(z);
}

proof fn lemma_encode_decodes(s: Seq<u8>)
    ensures
        b64_decode_clean(b64_encode_spec(s)) == Some(s),
        forall|i: int|
            0 <= i < b64_encode_spec(s).len() ==> !crate::bytes::is_ws(#[trigger] b64_encode_spec(s)[i]),
    decreases s.len(),
{
    let e = b64_encode_spec(s);
    if s.len() == 0 {
    } else if s.len() == 1 {
        lemma_quad_chars(s[0], 0, 0);
        let q = b64_quad(s[0], 0, 0);
        assert(e =~= seq![q[0], q[1], 61u8, 61u8]);
        assert(b64_triple(b64_val(e[0])->0, b64_val(e[1])->0, 0, 0).take(1) =~= s) by {
            let t = b64_triple(b64_val(q[0])->0, b64_val(q[1])->0, b64_val(q[2])->0, b64_val(q[3])->0);
            assert(t[0] == s[0]);
        }
    } else if s.len() == 2 {
        lemma_quad_chars(s[0], s[1], 0);
        let q = b64_quad(s[0], s[1], 0);
        assert(e =~= seq![q[0], q[1], q[2], 61u8]);
        assert(b64_triple(b64_val(e[0])->0, b64_val(e[1])->0, b64_val(e[2])->0, 0).take(2) =~= s)
            by {
            let t = b64_triple(b64_val(q[0])->0, b64_val(q[1])->0, b64_val(q[2])->0, b64_val(q[3])->0);
            assert(t[0] == s[0] && t[1] == s[1]);
        }
    } else {
        let rest = s.skip(3);
        lemma_encode_decodes(rest);
        lemma_quad_chars(s[0], s[1], s[2]);
        let q = b64_quad(s[0], s[1], s[2]);
        assert(e =~= q + b64_encode_spec(rest));
        assert(e.skip(4) =~= b64_encode_spec(rest));
        assert(seq![s[0], s[1], s[2]] + rest =~= s);
        assert(e[0] == q[0] && e[1] == q[1] && e[2] == q[2] && e[3] == q[3]);
        assert forall|i: int| 0 <= i < e.len() implies !crate::bytes::is_ws(#[trigger] e[i]) by {
            if i >= 4 {
                assert(e[i] == b64_encode_spec(rest)[i - 4]);
            } else {
                assert(e[i] == q[i]);
            }
        }
    }
}

proof fn lemma_encode_ascii(s: Seq<u8>)
    ensures
        forall|i: int| 0 <= i < b64_encode_spec(s).len() ==> #[trigger] b64_encode_spec(s)[i] < 128,
    decreases s.len(),
{
    let e = b64_encode_spec(s);
    if s.len() >= 3 {
        lemma_encode_ascii(s.skip(3));
        lemma_quad_decodes(s[0], s[1], s[2]);
        assert forall|i: int| 0 <= i < e.len() implies #[trigger] e[i] < 128 by {
            if i >= 4 {
                assert(e[i] == b64_encode_spec(s.skip(3))[i - 4]);
            }
        }
    } else if s.len() == 2 {
        lemma_quad_decodes(s[0], s[1], 0);
    } else if s.len() == 1 {
        lemma_quad_decodes(s[0], 0, 0);
    }
}

/// Base64 text is ASCII: it is valid UTF-8, and its decoded text encodes back to the same
/// bytes.
pub proof fn lemma_encode_text(s: Seq<u8>)
    ensures
        vstd::utf8::valid_utf8(b64_encode_spec(s)),
        crate::bytes::utf8(vstd::utf8::decode_utf8(b64_encode_spec(s))) == b64_encode_spec(s),
{
    let e = b64_encode_spec(s);
    lemma_encode_ascii(s);
    let c = e.map_values(|b: u8| b as char);
    assert(vstd::utf8::is_ascii_chars(c));
    vstd::utf8::is_ascii_chars_encode_utf8(c);
    assert(vstd::utf8::encode_utf8(c) =~= e);
    vstd::utf8::encode_utf8_valid_utf8(c);
    vstd::utf8::encode_utf8_decode_utf8(c);
}

/// Decoding undoes encoding: `b64_decode_spec(b64_encode_spec(s))` is `s` for every byte
/// string.
pub proof fn base64_round_trip(s: Seq<u8>)
    ensures
        b64_decode_spec(b64_encode_spec(s)) == Some(s),
{
    lemma_encode_decodes(s);
    lemma_strip_ws_none(b64_encode_spec(s));
}

fn b64_char_exec(v: u8) -> (r: u8)
    ensures
        r == b64_char(v),
{
    if v < 26 {
        v + 65
    } else if v < 52 {
        v - 26 + 97
    } else if v < 62 {
        v - 52 + 48
    } else if v == 62 {
        43
    } else {
        47
    }
}

fn b64_val_exec(c: u8) -> (r: Option<u8>)
    ensures
        r == b64_val(c),
{
    if c >= 65 && c <= 90 {
        Some(c - 65)
    } else if c >= 97 && c <= 122 {
        Some(c - 97 + 26)
    } else if c >= 48 && c <= 57 {
        Some(c - 48 + 52)
    } else if c == 43 {
        Some(62)
    } else if c == 47 {
        Some(63)
    } else {
        None
    }
}

/// Base64-encode `data` (the bytes of the encoding).
pub fn base64_encode_bytes(data: &[u8]) -> (r: Vec<u8>)
    ensures
        r@ == b64_encode_spec(data@),
{
    let mut out: Vec<u8> = Vec::new();
    let mut i: usize = 0;
    assert(data@.skip(0) =~= data@);
    while i < data.len()
        invariant
            i <= data@.len(),
            b64_encode_spec(data@) == out@ + b64_encode_spec(data@.skip(i as int)),
        decreases data@.len() - i,
    {
        let ghost rest = data@.skip(i as int);
        let left = data.len() - i;
        let a = data[i];
        let b: u8 = if left > 1 { data[i + 1] } else { 0 };
        let c: u8 = if left > 2 { data[i + 2] } else { 0 };
        let c1 = b64_char_exec(a >> 2);
        let c2 = b64_char_exec(((a & 3u8) << 4u8) | (b >> 4u8));
        let c3 = b64_char_exec(((b & 15u8) << 2u8) | (c >> 6u8));
        let c4 = b64_char_exec(c & 63u8);
        let ghost q = b64_quad(a, b, c);
        out.push(c1);
        out.push(c2);
        if left == 1 {
            out.push(61);
            out.push(61);
            assert(b64_encode_spec(rest) =~= seq![c1, c2, 61u8, 61u8]);
            assert(data@.skip(data@.len() as int) =~= Seq::<u8>::empty());
            i = data.len();
        } else if left == 2 {
            out.push(c3);
            out.push(61);
            assert(b64_encode_spec(rest) =~= seq![c1, c2, c3, 61u8]);
            assert(data@.skip(data@.len() as int) =~= Seq::<u8>::empty());
            i = data.len();
        } else {
            out.push(c3);
            out.push(c4);
            assert(rest.skip(3) =~= data@.skip(i + 3));
            assert(b64_encode_spec(rest) =~= seq![c1, c2, c3, c4] + b64_encode_spec(
                data@.skip(i + 3),
            ));
            i = i + 3;
        }
    }
    assert(data@.skip(data@.len() as int) =~= Seq::<u8>::empty());
    out
}

/// Copy of `s` without white space.
fn strip_ws_exec(s: &[u8]) -> (r: Vec<u8>)
    ensures
        r@ == strip_ws(s@),
{
    let mut out: Vec<u8> = Vec::new();
    let mut i: usize = 0;
    while i < s.len()
        invariant
            i <= s@.len(),
            out@ == strip_ws(s@.take(i as int)),
        decreases s@.len() - i,
    {
        assert(s@.take(i + 1).drop_last() =~= s@.take(i as int));
        if !byte_is_ws(s[i]) {
            out.push(s[i]);
        }
        i += 1;
    }
    assert(s@.take(s@.len() as int) =~= s@);
    out
}

/// Base64-decode `text`; `None` if it is not valid base64.
pub fn base64_decode_bytes(text: &[u8]) -> (r: Option<Vec<u8>>)
    ensures
        r matches Some(v) ==> b64_decode_spec(text@) == Some(v@),
        r is None ==> b64_decode_spec(text@) is None,
{
    let s = strip_ws_exec(text);
    let len = s.len();
    let mut out: Vec<u8> = Vec::new();
    let mut i: usize = 0;
    assert(s@.skip(0) =~= s@);
    while i < len
        invariant
            len == s@.len(),
            s@ == strip_ws(text@),
            i <= len,
            b64_decode_clean(s@.skip(i as int)) matches Some(rest) ==> b64_decode_clean(s@)
                == Some(out@ + rest),
            b64_decode_clean(s@.skip(i as int)) is None ==> b64_decode_clean(s@) is None,
        decreases len - i,
    {
        let ghost rest = s@.skip(i as int);
        if len - i < 4 {
            assert(b64_decode_clean(rest) is None);
            return None;
        }
        let a = b64_val_exec(s[i]);
        let b = b64_val_exec(s[i + 1]);
        let c = b64_val_exec(s[i + 2]);
        let d = b64_val_exec(s[i + 3]);
        assert(rest[0] == s@[i as int] && rest[1] == s@[i + 1] && rest[2] == s@[i + 2] && rest[3]
            == s@[i + 3]);
        match (a, b, c, d) {
            (Some(a), Some(b), Some(c), Some(d)) => {
                let v1: u8 = (a << 2u8) | (b >> 4u8);
                let v2: u8 = (b << 4u8) | (c >> 2u8);
                let v3: u8 = (c << 6u8) | d;
                assert(rest.skip(4) =~= s@.skip(i + 4));
                let ghost old_out = out@;
                out.push(v1);
                out.push(v2);
                out.push(v3);
                assert(out@ =~= old_out + b64_triple(a, b, c, d));
                proof {
                    match b64_decode_clean(s@.skip(i + 4)) {
                        Some(r2) => {
                            assert(b64_triple(a, b, c, d) + r2 =~= b64_triple(a, b, c, d) + r2);
                            assert(old_out + (b64_triple(a, b, c, d) + r2) =~= out@ + r2);
                        },
                        None => {},
                    }
                }
                i = i + 4;
            },
            (Some(a), Some(b), Some(c), None) => {
                if len - i == 4 && s[i + 3] == 61 {
                    let v1: u8 = (a << 2u8) | (b >> 4u8);
                    let v2: u8 = (b << 4u8) | (c >> 2u8);
                    let ghost old_out = out@;
                    out.push(v1);
                    out.push(v2);
                    assert(b64_triple(a, b, c, 0).take(2) =~= seq![v1, v2]);
                    assert(out@ =~= old_out + b64_triple(a, b, c, 0).take(2));
                    assert(s@.skip(len as int) =~= Seq::<u8>::empty());
                    i = len;
                } else {
                    assert(b64_decode_clean(rest) is None);
                    return None;
                }
            },
            (Some(a), Some(b), None, None) => {
                if len - i == 4 && s[i + 2] == 61 && s[i + 3] == 61 {
                    let v1: u8 = (a << 2u8) | (b >> 4u8);
                    let ghost old_out = out@;
                    out.push(v1);
                    assert(b64_triple(a, b, 0, 0).take(1) =~= seq![v1]);
                    assert(out@ =~= old_out + b64_triple(a, b, 0, 0).take(1));
                    assert(s@.skip(len as int) =~= Seq::<u8>::empty());
                    i = len;
                } else {
                    assert(b64_decode_clean(rest) is None);
                    return None;
                }
            },
            _ => {
                assert(b64_decode_clean(rest) is None);
                return None;
            },
        }
    }
    assert(s@.skip(len as int) =~= Seq::<u8>::empty());
    assert(out@ + Seq::<u8>::empty() =~= out@);
    Some(out)
}


/// Base64-encode `data` as text.
pub fn base64_encode(data: &[u8]) -> (r: String)
    ensures
        r@ == crate::text::utf8_lossy(b64_encode_spec(data@)),
        crate::bytes::utf8(r@) == b64_encode_spec(data@),
{
    let b = base64_encode_bytes(data);
    proof {
        lemma_encode_text(data@);
    }
    crate::text::lossy_string(b.as_slice())
}

/// Base64-decode `text`; `None` if it is not valid base64 (white space is ignored).
pub fn base64_decode(text: &str) -> (r: Option<Vec<u8>>)
    ensures
        r matches Some(v) ==> b64_decode_spec(crate::bytes::lit(text)) == Some(v@),
        r is None ==> b64_decode_spec(crate::bytes::lit(text)) is None,
{
    base64_decode_bytes(text.as_bytes())
}

} // verus!
