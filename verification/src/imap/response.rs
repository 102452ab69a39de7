//! IMAP response encoding (RFC 9051 §7): the `string` / `nstring` quoting rules, the ENVELOPE
//! and BODYSTRUCTURE projections, FETCH body-section extraction and partial windows.
use vstd::prelude::*;
use std::borrow::Cow;
use crate::bytes::{eq_ci, is_kw, is_lit, lit_vec, push_all, push_lit, slice_of, to_lower, to_upper, to_vec, trim};
use crate::mime::{body_offset, BodyPart, ParsedMessage};
use crate::smtp::push_dec;
use crate::text::lossy_string;
use super::parser::Section;

verus! {

// ---------------------------------------------------------------------------------------------
// Strings
// ---------------------------------------------------------------------------------------------

/// A byte that forces the literal form: CR, LF, NUL, or 8-bit.
pub open spec fn needs_literal_byte(b: u8) -> bool {
    b == 13 || b == 10 || b == 0 || b >= 128
}

/// An IMAP `string`: `""` when empty, a literal `{n}CRLF...` when some byte cannot stand in a
/// quoted string, else a quoted string with `\` and `"` escaped.
pub open spec fn imap_string_spec(s: Seq<u8>) -> Seq<u8> {
    if s.len() == 0 {
        seq![34u8, 34u8]
    } else if exists|i: int| 0 <= i < s.len() && needs_literal_byte(#[trigger] s[i]) {
        seq![123u8] + crate::smtp::dec_spec(s.len()) + seq![125u8, 13u8, 10u8] + s
    } else {
        seq![34u8] + crate::mime::escape_quoted(s) + seq![34u8]
    }
}

/// [`imap_string`] on bytes, appended to `out`.
pub fn push_imap_string(out: &mut Vec<u8>, s: &[u8])
    ensures
        final(out)@ == old(out)@ + imap_string_spec(s@),
{
    if s.len() == 0 {
        out.push(34);
        out.push(34);
        assert(final(out)@ =~= old(out)@ + imap_string_spec(s@));
        return;
    }
    let mut lit = false;
    let mut i: usize = 0;
    while i < s.len()
        invariant
            i <= s@.len(),
            lit == exists|j: int| 0 <= j < i && needs_literal_byte(#[trigger] s@[j]),
        decreases s@.len() - i,
    {
        let b = s[i];
        if b == 13 || b == 10 || b == 0 || b >= 128 {
            lit = true;
        }
        i += 1;
    }
    if lit {
        out.push(123);
        push_dec(out, s.len());
        out.push(125);
        out.push(13);
        out.push(10);
        push_all(out, s);
        assert(final(out)@ =~= old(out)@ + imap_string_spec(s@));
    } else {
        let ghost o0 = out@;
        out.push(34);
        let mut k: usize = 0;
        assert(s@.take(0) =~= Seq::<u8>::empty());
        while k < s.len()
            invariant
                k <= s@.len(),
                out@ == o0 + seq![34u8] + crate::mime::escape_quoted(s@.take(k as int)),
            decreases s@.len() - k,
        {
            assert(s@.take(k + 1).drop_last() =~= s@.take(k as int));
            let b = s[k];
            if b == 34 || b == 92 {
                out.push(92);
            }
            out.push(b);
            assert(out@ =~= o0 + seq![34u8] + crate::mime::escape_quoted(s@.take(k + 1)));
            k += 1;
        }
        assert(s@.take(k as int) =~= s@);
        out.push(34);
        assert(final(out)@ =~= old(out)@ + imap_string_spec(s@));
    }
}

/// Quote a string as an IMAP `string`.
pub fn imap_string(s: &str) -> (r: String)
    ensures
        r@ == crate::text::utf8_lossy(imap_string_spec(crate::bytes::lit(s))),
{
    let mut out: Vec<u8> = Vec::new();
    push_imap_string(&mut out, s.as_bytes());
    assert(out@ =~= imap_string_spec(crate::bytes::lit(s)));
    lossy_string(out.as_slice())
}

/// An IMAP `nstring`: `NIL` when absent.
pub open spec fn nstring_spec(s: Option<Seq<u8>>) -> Seq<u8> {
    match s {
        None => crate::bytes::lit("NIL"),
        Some(v) => imap_string_spec(v),
    }
}

fn push_nstring(out: &mut Vec<u8>, s: Option<&[u8]>)
    ensures
        final(out)@ == old(out)@ + nstring_spec(
            match s {
                Some(v) => Some(v@),
                None => None,
            },
        ),
{
    match s {
        None => push_lit(out, "NIL"),
        Some(v) => push_imap_string(out, v),
    }
}

/// An IMAP `nstring`: `NIL` when absent, else a quoted or literal string.
pub fn nstring(s: Option<&str>) -> (r: String)
    ensures
        r@ == crate::text::utf8_lossy(
            nstring_spec(
                match s {
                    Some(v) => Some(crate::bytes::lit(v)),
                    None => None,
                },
            ),
        ),
{
    let mut out: Vec<u8> = Vec::new();
    match s {
        Some(v) => push_nstring(&mut out, Some(v.as_bytes())),
        None => push_nstring(&mut out, None),
    }
    assert(out@ =~= nstring_spec(
        match s {
            Some(v) => Some(crate::bytes::lit(v)),
            None => None,
        },
    ));
    lossy_string(out.as_slice())
}

// ---------------------------------------------------------------------------------------------
// ENVELOPE
// ---------------------------------------------------------------------------------------------

pub open spec fn opt_bytes(o: Option<Seq<char>>) -> Option<Seq<u8>> {
    match o {
        Some(c) => Some(crate::bytes::utf8(c)),
        None => None,
    }
}

/// One ENVELOPE address: `(name adl mailbox host)`, each an `nstring`.
pub open spec fn addr_spec(
    a: (Option<Seq<char>>, Option<Seq<char>>, Option<Seq<char>>, Option<Seq<char>>),
) -> Seq<u8> {
    seq![40u8] + nstring_spec(opt_bytes(a.0)) + seq![32u8] + nstring_spec(opt_bytes(a.1)) + seq![
        32u8,
    ] + nstring_spec(opt_bytes(a.2)) + seq![32u8] + nstring_spec(opt_bytes(a.3)) + seq![41u8]
}

pub open spec fn addrs_concat(
    v: Seq<(Option<Seq<char>>, Option<Seq<char>>, Option<Seq<char>>, Option<Seq<char>>)>,
) -> Seq<u8>
    decreases v.len(),
{
    if v.len() == 0 {
        seq![]
    } else {
        addrs_concat(v.drop_last()) + addr_spec(v.last())
    }
}

/// An ENVELOPE address list: `NIL` when empty, else the parenthesised addresses.
pub open spec fn addr_list_spec(
    v: Seq<(Option<Seq<char>>, Option<Seq<char>>, Option<Seq<char>>, Option<Seq<char>>)>,
) -> Seq<u8> {
    if v.len() == 0 {
        crate::bytes::lit("NIL")
    } else {
        seq![40u8] + addrs_concat(v) + seq![41u8]
    }
}

fn opt_str_bytes(o: &Option<String>) -> (r: Option<&[u8]>)
    ensures
        match r {
            Some(v) => Some(v@),
            None => None::<Seq<u8>>,
        } == opt_bytes(crate::mime::opt_view(*o)),
{
    match o {
        Some(s) => Some(s.as_str().as_bytes()),
        None => None,
    }
}

fn push_addr(out: &mut Vec<u8>, a: &crate::mime::Address)
    ensures
        final(out)@ == old(out)@ + addr_spec(crate::mime::address_view(*a)),
{
    out.push(40);
    push_nstring(out, opt_str_bytes(&a.name));
    out.push(32);
    push_nstring(out, opt_str_bytes(&a.adl));
    out.push(32);
    push_nstring(out, opt_str_bytes(&a.mailbox));
    out.push(32);
    push_nstring(out, opt_str_bytes(&a.host));
    out.push(41);
    assert(final(out)@ =~= old(out)@ + addr_spec(crate::mime::address_view(*a)));
}

fn push_addr_list(out: &mut Vec<u8>, addrs: &Vec<crate::mime::Address>)
    ensures
        final(out)@ == old(out)@ + addr_list_spec(crate::mime::addresses_view(addrs@)),
{
    let ghost v = crate::mime::addresses_view(addrs@);
    if addrs.len() == 0 {
        push_lit(out, "NIL");
        return;
    }
    let ghost o0 = out@;
    out.push(40);
    let mut i: usize = 0;
    assert(v.take(0) =~= Seq::<(Option<Seq<char>>, Option<Seq<char>>, Option<Seq<char>>, Option<Seq<char>>)>::empty());
    while i < addrs.len()
        invariant
            i <= addrs@.len(),
            v == crate::mime::addresses_view(addrs@),
            out@ == o0 + seq![40u8] + addrs_concat(v.take(i as int)),
        decreases addrs@.len() - i,
    {
        assert(v.take(i + 1).drop_last() =~= v.take(i as int));
        assert(v[i as int] == crate::mime::address_view(addrs@[i as int]));
        push_addr(out, &addrs[i]);
        assert(out@ =~= o0 + seq![40u8] + addrs_concat(v.take(i + 1)));
        i += 1;
    }
    assert(v.take(i as int) =~= v);
    out.push(41);
    assert(final(out)@ =~= old(out)@ + addr_list_spec(v));
}

/// The value of the first header named `name` in a parsed message, as bytes.
pub open spec fn hval(p: &ParsedMessage, name: &str) -> Option<Seq<u8>> {
    crate::mime::header_value(crate::mime::message_headers(p), crate::bytes::lit(name))
}

/// The addresses of the first header named `name` (none when absent).
pub open spec fn haddrs(p: &ParsedMessage, name: &str) -> Seq<
    (Option<Seq<char>>, Option<Seq<char>>, Option<Seq<char>>, Option<Seq<char>>),
> {
    match hval(p, name) {
        Some(v) => crate::mime::address_list_spec(v),
        None => seq![],
    }
}

/// Byte strings joined by SP.
pub open spec fn join_sp(ps: Seq<Seq<u8>>) -> Seq<u8>
    decreases ps.len(),
{
    if ps.len() == 0 {
        seq![]
    } else if ps.len() == 1 {
        ps[0]
    } else {
        join_sp(ps.drop_last()) + seq![32u8] + ps.last()
    }
}

/// The ENVELOPE of a message (RFC 9051 §7.5.2): date, subject, from, sender, reply-to, to, cc,
/// bcc, in-reply-to, message-id; Sender and Reply-To default to From when absent.
pub open spec fn envelope_spec(p: &ParsedMessage) -> Seq<u8> {
    let from = addr_list_spec(haddrs(p, "From"));
    let sender = if hval(p, "Sender") is Some { addr_list_spec(haddrs(p, "Sender")) } else { from };
    let reply_to = if hval(p, "Reply-To") is Some {
        addr_list_spec(haddrs(p, "Reply-To"))
    } else {
        from
    };
    let mid = match hval(p, "Message-ID") {
        Some(v) => Some(v),
        None => hval(p, "Message-Id"),
    };
    seq![40u8] + join_sp(
        seq![
            nstring_spec(hval(p, "Date")),
            nstring_spec(hval(p, "Subject")),
            from,
            sender,
            reply_to,
            addr_list_spec(haddrs(p, "To")),
            addr_list_spec(haddrs(p, "Cc")),
            addr_list_spec(haddrs(p, "Bcc")),
            nstring_spec(hval(p, "In-Reply-To")),
            nstring_spec(mid),
        ],
    ) + seq![41u8]
}

/// `(` + the parts joined by SP + `)`.
fn paren_join(parts: &Vec<Vec<u8>>) -> (r: Vec<u8>)
    ensures
        r@ == seq![40u8] + join_sp(crate::bytes::views(parts@)) + seq![41u8],
{
    let ghost v = crate::bytes::views(parts@);
    let mut out: Vec<u8> = Vec::new();
    out.push(40);
    let mut i: usize = 0;
    assert(v.take(0) =~= Seq::<Seq<u8>>::empty());
    while i < parts.len()
        invariant
            i <= parts@.len(),
            v == crate::bytes::views(parts@),
            out@ == seq![40u8] + join_sp(v.take(i as int)),
        decreases parts@.len() - i,
    {
        assert(v.take(i + 1).drop_last() =~= v.take(i as int));
        assert(v[i as int] == parts@[i as int]@);
        if i > 0 {
            out.push(32);
        }
        push_all(&mut out, parts[i].as_slice());
        assert(out@ =~= seq![40u8] + join_sp(v.take(i + 1)));
        i += 1;
    }
    assert(v.take(i as int) =~= v);
    out.push(41);
    out
}

fn push_part(parts: &mut Vec<Vec<u8>>, x: Vec<u8>)
    ensures
        crate::bytes::views(final(parts)@) == crate::bytes::views(old(parts)@).push(x@),
{
    parts.push(x);
    assert(crate::bytes::views(final(parts)@) =~= crate::bytes::views(old(parts)@).push(x@));
}

fn nstring_vec(s: Option<&[u8]>) -> (r: Vec<u8>)
    ensures
        r@ == nstring_spec(
            match s {
                Some(v) => Some(v@),
                None => None,
            },
        ),
{
    let mut out: Vec<u8> = Vec::new();
    push_nstring(&mut out, s);
    assert(out@ =~= nstring_spec(
        match s {
            Some(v) => Some(v@),
            None => None,
        },
    ));
    out
}

fn addrs_vec(p: &ParsedMessage, name: &str) -> (r: Vec<u8>)
    ensures
        r@ == addr_list_spec(haddrs(p, name)),
{
    let mut out: Vec<u8> = Vec::new();
    push_header_addrs(&mut out, p, name);
    assert(out@ =~= addr_list_spec(haddrs(p, name)));
    out
}

fn header_bytes<'a>(p: &'a ParsedMessage, name: &str) -> (r: Option<&'a [u8]>)
    ensures
        match r {
            Some(v) => Some(v@),
            None => None::<Seq<u8>>,
        } == hval(p, name),
{
    match p.header(name) {
        Some(v) => {
            let ghost k = crate::mime::header_index(crate::mime::message_headers(p), crate::bytes::lit(name), 0);
            assert(crate::mime::message_headers(p)[k].1 == crate::bytes::utf8(p.headers@[k].1@));
            Some(v.as_bytes())
        },
        None => None,
    }
}

fn push_header_addrs(out: &mut Vec<u8>, p: &ParsedMessage, name: &str)
    ensures
        final(out)@ == old(out)@ + addr_list_spec(haddrs(p, name)),
{
    let a = p.addresses(name);
    proof {
        let k = crate::mime::header_index(crate::mime::message_headers(p), crate::bytes::lit(name), 0);
        if 0 <= k < p.headers@.len() {
            assert(crate::mime::message_headers(p)[k].1 == crate::bytes::utf8(p.headers@[k].1@));
        } else {
            assert(crate::mime::addresses_view(a@) =~= Seq::<(Option<Seq<char>>, Option<Seq<char>>, Option<Seq<char>>, Option<Seq<char>>)>::empty());
        }
    }
    push_addr_list(out, &a);
}

/// Encode the ENVELOPE structure (RFC 9051 §7.5.2) from parsed headers.
pub fn envelope(p: &ParsedMessage) -> (r: String)
    ensures
        r@ == crate::text::utf8_lossy(envelope_spec(p)),
{
    let out = envelope_bytes(p);
    lossy_string(out.as_slice())
}

/// The ENVELOPE structure as bytes.
#[verifier::rlimit(80)]
#[verifier::spinoff_prover]
pub(crate) fn envelope_bytes(p: &ParsedMessage) -> (r: Vec<u8>)
    ensures
        r@ == envelope_spec(p),
{
    let from = addrs_vec(p, "From");
    let sender = if header_bytes(p, "Sender").is_some() {
        addrs_vec(p, "Sender")
    } else {
        to_vec(from.as_slice())
    };
    let reply_to = if header_bytes(p, "Reply-To").is_some() {
        addrs_vec(p, "Reply-To")
    } else {
        to_vec(from.as_slice())
    };
    let mid = match header_bytes(p, "Message-ID") {
        Some(v) => Some(v),
        None => header_bytes(p, "Message-Id"),
    };
    let d = nstring_vec(header_bytes(p, "Date"));
    let sb = nstring_vec(header_bytes(p, "Subject"));
    let to = addrs_vec(p, "To");
    let cc = addrs_vec(p, "Cc");
    let bcc = addrs_vec(p, "Bcc");
    let irt = nstring_vec(header_bytes(p, "In-Reply-To"));
    let m = nstring_vec(mid);
    let ghost want = seq![d@, sb@, from@, sender@, reply_to@, to@, cc@, bcc@, irt@, m@];
    let mut parts: Vec<Vec<u8>> = Vec::new();
    push_part(&mut parts, d);
    push_part(&mut parts, sb);
    push_part(&mut parts, from);
    push_part(&mut parts, sender);
    push_part(&mut parts, reply_to);
    push_part(&mut parts, to);
    push_part(&mut parts, cc);
    push_part(&mut parts, bcc);
    push_part(&mut parts, irt);
    push_part(&mut parts, m);
    assert(crate::bytes::views(parts@) =~= want);
    let out = paren_join(&parts);
    assert(crate::bytes::views(parts@) =~= seq![
        nstring_spec(hval(p, "Date")),
        nstring_spec(hval(p, "Subject")),
        addr_list_spec(haddrs(p, "From")),
        (if hval(p, "Sender") is Some { addr_list_spec(haddrs(p, "Sender")) } else { addr_list_spec(haddrs(p, "From")) }),
        (if hval(p, "Reply-To") is Some { addr_list_spec(haddrs(p, "Reply-To")) } else { addr_list_spec(haddrs(p, "From")) }),
        addr_list_spec(haddrs(p, "To")),
        addr_list_spec(haddrs(p, "Cc")),
        addr_list_spec(haddrs(p, "Bcc")),
        nstring_spec(hval(p, "In-Reply-To")),
        nstring_spec(match hval(p, "Message-ID") {
            Some(v) => Some(v),
            None => hval(p, "Message-Id"),
        }),
    ]);
    out
}


// ---------------------------------------------------------------------------------------------
// BODYSTRUCTURE
// ---------------------------------------------------------------------------------------------

/// One parameter as `"NAME" "value"` (name upper-cased).
pub open spec fn param_item(kv: (Seq<char>, Seq<char>)) -> Seq<u8> {
    imap_string_spec(crate::bytes::upper_seq(crate::bytes::utf8(kv.0))) + seq![32u8]
        + imap_string_spec(crate::bytes::utf8(kv.1))
}

/// A body parameter list: `NIL` when empty, else the parenthesised name/value pairs.
pub open spec fn param_list_spec(ps: Seq<(Seq<char>, Seq<char>)>) -> Seq<u8> {
    if ps.len() == 0 {
        crate::bytes::lit("NIL")
    } else {
        seq![40u8] + join_sp(ps.map_values(|kv: (Seq<char>, Seq<char>)| param_item(kv))) + seq![41u8]
    }
}

fn push_param_list(out: &mut Vec<u8>, params: &Vec<(String, String)>)
    ensures
        final(out)@ == old(out)@ + param_list_spec(crate::mime::headers_view(params@)),
{
    let ghost v = crate::mime::headers_view(params@);
    let ghost items = v.map_values(|kv: (Seq<char>, Seq<char>)| param_item(kv));
    if params.len() == 0 {
        push_lit(out, "NIL");
        return;
    }
    let ghost o0 = out@;
    out.push(40);
    let mut i: usize = 0;
    assert(items.take(0) =~= Seq::<Seq<u8>>::empty());
    while i < params.len()
        invariant
            i <= params@.len(),
            v == crate::mime::headers_view(params@),
            items == v.map_values(|kv: (Seq<char>, Seq<char>)| param_item(kv)),
            out@ == o0 + seq![40u8] + join_sp(items.take(i as int)),
        decreases params@.len() - i,
    {
        assert(items.take(i + 1).drop_last() =~= items.take(i as int));
        assert(items[i as int] == param_item((params@[i as int].0@, params@[i as int].1@)));
        let ghost before = out@;
        if i > 0 {
            out.push(32);
        }
        let k = to_upper(params[i].0.as_str().as_bytes());
        push_imap_string(out, k.as_slice());
        out.push(32);
        push_imap_string(out, params[i].1.as_str().as_bytes());
        assert(out@ =~= o0 + seq![40u8] + join_sp(items.take(i + 1)));
        i += 1;
    }
    assert(items.take(i as int) =~= items);
    out.push(41);
    assert(final(out)@ =~= old(out)@ + param_list_spec(v));
}

/// BODYSTRUCTURE (`extensible`) or BODY of a part (RFC 9051 §7.5.3).
pub open spec fn bs_spec(p: BodyPart, ext: bool) -> Seq<u8>
    decreases p,
{
    match p {
        BodyPart::Multipart { subtype, parts, params } => {
            seq![40u8] + bs_concat(parts@, ext) + seq![32u8] + imap_string_spec(
                crate::bytes::upper_seq(crate::bytes::utf8(subtype@)),
            ) + (if ext {
                seq![32u8] + param_list_spec(crate::mime::headers_view(params@)) + crate::bytes::lit(
                    " NIL NIL NIL",
                )
            } else {
                seq![]
            }) + seq![41u8]
        },
        BodyPart::Single { .. } => single_spec(p, ext),
    }
}

/// The BODYSTRUCTURE of a leaf part: type, subtype, parameters, id, description, encoding and
/// size, the line count for `text/*`, and the (empty) extension data when `ext`.
pub open spec fn single_spec(p: BodyPart, ext: bool) -> Seq<u8> {
    match p {
        BodyPart::Single {
            mime_type,
            subtype,
            params,
            id,
            description,
            encoding,
            octets,
            lines,
        } => {
            seq![40u8] + join_sp(
                seq![
                    imap_string_spec(crate::bytes::upper_seq(crate::bytes::utf8(mime_type@))),
                    imap_string_spec(crate::bytes::upper_seq(crate::bytes::utf8(subtype@))),
                    param_list_spec(crate::mime::headers_view(params@)),
                    nstring_spec(opt_bytes(crate::mime::opt_view(id))),
                    nstring_spec(opt_bytes(crate::mime::opt_view(description))),
                    imap_string_spec(crate::bytes::utf8(encoding@)),
                    crate::smtp::dec_spec(octets as nat),
                ],
            ) + (if crate::bytes::utf8(mime_type@) == crate::bytes::lit("text") {
                seq![32u8] + crate::smtp::dec_spec(lines as nat)
            } else {
                seq![]
            }) + (if ext {
                crate::bytes::lit(" NIL NIL NIL NIL")
            } else {
                seq![]
            }) + seq![41u8]
        },
        _ => seq![],
    }
}

fn single_structure(part: &BodyPart, extensible: bool) -> (r: Vec<u8>)
    requires
        part is Single,
    ensures
        r@ == single_spec(*part, extensible),
{
    match part {
        BodyPart::Single {
            mime_type,
            subtype,
            params,
            id,
            description,
            encoding,
            octets,
            lines,
        } => {
            let mut items: Vec<Vec<u8>> = Vec::new();
            let mt = to_upper(mime_type.as_str().as_bytes());
            let mut a: Vec<u8> = Vec::new();
            push_imap_string(&mut a, mt.as_slice());
            let stu = to_upper(subtype.as_str().as_bytes());
            let mut b: Vec<u8> = Vec::new();
            push_imap_string(&mut b, stu.as_slice());
            let mut c: Vec<u8> = Vec::new();
            push_param_list(&mut c, params);
            let mut d: Vec<u8> = Vec::new();
            push_nstring(&mut d, opt_str_bytes(id));
            let mut e: Vec<u8> = Vec::new();
            push_nstring(&mut e, opt_str_bytes(description));
            let mut f: Vec<u8> = Vec::new();
            push_imap_string(&mut f, encoding.as_str().as_bytes());
            let mut g: Vec<u8> = Vec::new();
            push_dec(&mut g, *octets);
            let ghost want = seq![a@, b@, c@, d@, e@, f@, g@];
            push_part(&mut items, a);
            push_part(&mut items, b);
            push_part(&mut items, c);
            push_part(&mut items, d);
            push_part(&mut items, e);
            push_part(&mut items, f);
            push_part(&mut items, g);
            assert(crate::bytes::views(items@) =~= want);
            let joined = paren_join(&items);
            // `paren_join` closes the list; the optional fields go before that parenthesis.
            let mut out = to_vec(slice_of(joined.as_slice(), 0, joined.len() - 1));
            assert(out@ + seq![41u8] =~= joined@);
            let ghost body = out@;
            if is_lit(mime_type.as_str().as_bytes(), "text") {
                out.push(32);
                push_dec(&mut out, *lines);
            }
            if extensible {
                push_lit(&mut out, " NIL NIL NIL NIL");
            }
            out.push(41);
            assert(out@ =~= single_spec(*part, extensible));
            out
        },
        _ => Vec::new(),
    }
}

/// The structures of a list of parts, concatenated.
pub open spec fn bs_concat(ps: Seq<BodyPart>, ext: bool) -> Seq<u8>
    decreases ps,
{
    if ps.len() == 0 {
        seq![]
    } else {
        bs_concat(ps.drop_last(), ext) + bs_spec(ps.last(), ext)
    }
}

pub(crate) fn push_body_structure(out: &mut Vec<u8>, part: &BodyPart, extensible: bool)
    ensures
        final(out)@ == old(out)@ + bs_spec(*part, extensible),
    decreases part,
{
    match part {
        BodyPart::Multipart { subtype, parts, params } => {
            let ghost o0 = out@;
            out.push(40);
            let mut i: usize = 0;
            assert(parts@.take(0) =~= Seq::<BodyPart>::empty());
            while i < parts.len()
                invariant
                    i <= parts@.len(),
                    part is Multipart,
                    part->parts == *parts,
                    out@ == o0 + seq![40u8] + bs_concat(parts@.take(i as int), extensible),
                decreases parts@.len() - i,
            {
                assert(parts@.take(i + 1).drop_last() =~= parts@.take(i as int));
                proof {
                    assert(*parts == part->parts);
                    assert(decreases_to!(*part => part->parts));
                    assert(decreases_to!(part->parts => parts@));
                    assert(decreases_to!(parts@ => parts@[i as int]));
                }
                push_body_structure(out, &parts[i], extensible);
                assert(out@ =~= o0 + seq![40u8] + bs_concat(parts@.take(i + 1), extensible));
                i += 1;
            }
            assert(parts@.take(i as int) =~= parts@);
            let ghost o1 = out@;
            out.push(32);
            let st = to_upper(subtype.as_str().as_bytes());
            push_imap_string(out, st.as_slice());
            let ghost o2 = out@;
            if extensible {
                out.push(32);
                push_param_list(out, params);
                push_lit(out, " NIL NIL NIL");
            }
            out.push(41);
            assert(final(out)@ =~= old(out)@ + bs_spec(*part, extensible));
        },
        BodyPart::Single { .. } => {
            let v = single_structure(part, extensible);
            push_all(out, v.as_slice());
        },
    }
}

/// Encode BODYSTRUCTURE (RFC 9051 §7.5.3); `extensible` appends the extension data
/// (BODYSTRUCTURE), without it the result is the bare BODY form.
pub fn body_structure(part: &BodyPart, extensible: bool) -> (r: String)
    ensures
        r@ == crate::text::utf8_lossy(bs_spec(*part, extensible)),
{
    let mut out: Vec<u8> = Vec::new();
    push_body_structure(&mut out, part, extensible);
    assert(out@ =~= bs_spec(*part, extensible));
    lossy_string(out.as_slice())
}


// ---------------------------------------------------------------------------------------------
// Body sections
// ---------------------------------------------------------------------------------------------

/// The segment a 1-based MIME part path leads to: each index selects a top-level part of the
/// current segment; an index of zero or past the last part leads nowhere.
pub open spec fn part_walk(cur: Seq<u8>, path: Seq<u32>) -> Option<Seq<u8>>
    decreases path.len(),
{
    if path.len() == 0 {
        Some(cur)
    } else {
        let segs = crate::mime::part_segments_spec(cur);
        let i = path[0];
        if i == 0 || i > segs.len() {
            None
        } else {
            part_walk(segs[i - 1], path.drop_first())
        }
    }
}

/// Walk a numeric MIME part path (1-based) into the raw message.
pub fn extract_part(raw: &[u8], path: &[u32]) -> (r: Option<Vec<u8>>)
    ensures
        match r {
            Some(v) => part_walk(raw@, path@) == Some(v@),
            None => part_walk(raw@, path@) is None,
        },
{
    let mut current = to_vec(raw);
    let mut k: usize = 0;
    assert(path@.skip(0) =~= path@);
    while k < path.len()
        invariant
            k <= path@.len(),
            part_walk(raw@, path@) == part_walk(current@, path@.skip(k as int)),
        decreases path@.len() - k,
    {
        assert(path@.skip(k as int).drop_first() =~= path@.skip(k + 1));
        assert(path@.skip(k as int)[0] == path@[k as int]);
        let idx = path[k];
        let segs = crate::mime::part_segments(current.as_slice());
        if idx == 0 || idx as usize > segs.len() {
            return None;
        }
        assert(crate::bytes::views(segs@)[idx - 1] == segs@[idx - 1]@);
        current = to_vec(segs[idx as usize - 1].as_slice());
        k += 1;
    }
    assert(path@.skip(k as int) =~= Seq::<u32>::empty());
    Some(current)
}

/// Whether a header name is among the requested fields (ASCII case-insensitive).
pub open spec fn field_wanted(fields: Seq<Vec<u8>>, name: Seq<u8>) -> bool {
    exists|j: int|
        0 <= j < fields.len() && crate::bytes::lower_seq(#[trigger] fields[j]@)
            == crate::bytes::lower_seq(name)
}

/// The header lines kept by a `HEADER.FIELDS` (`keep`) or `HEADER.FIELDS.NOT` selection.
pub open spec fn selected_lines(hs: Seq<(Seq<char>, Seq<char>)>, fields: Seq<Vec<u8>>, keep: bool) -> Seq<u8>
    decreases hs.len(),
{
    if hs.len() == 0 {
        seq![]
    } else {
        let (n, v) = hs.last();
        let nb = crate::bytes::utf8(n);
        selected_lines(hs.drop_last(), fields, keep) + if field_wanted(fields, nb) == keep {
            nb + crate::bytes::lit(": ") + crate::bytes::utf8(v) + seq![13u8, 10u8]
        } else {
            seq![]
        }
    }
}

/// The selected header lines of a raw message followed by the blank line.
pub open spec fn selected_headers_spec(raw: Seq<u8>, fields: Seq<Vec<u8>>, keep: bool) -> Seq<u8> {
    selected_lines(
        crate::mime::pairs_text(
            crate::mime::header_block_spec(raw.subrange(0, crate::mime::body_offset_spec(raw))),
        ),
        fields,
        keep,
    ) + seq![13u8, 10u8]
}

fn is_wanted(fields: &Vec<Vec<u8>>, name: &[u8]) -> (r: bool)
    ensures
        r == field_wanted(fields@, name@),
{
    let n = to_lower(name);
    let mut j: usize = 0;
    while j < fields.len()
        invariant
            j <= fields@.len(),
            n@ == crate::bytes::lower_seq(name@),
            forall|t: int|
                0 <= t < j ==> crate::bytes::lower_seq(#[trigger] fields@[t]@) != crate::bytes::lower_seq(
                    name@,
                ),
        decreases fields@.len() - j,
    {
        let f = to_lower(fields[j].as_slice());
        if crate::bytes::bytes_eq(f.as_slice(), n.as_slice()) {
            return true;
        }
        j += 1;
    }
    false
}

/// Header lines matching (or, with `keep == false`, not matching) `fields`, then CRLF.
pub fn selected_headers(raw: &[u8], fields: &Vec<Vec<u8>>, keep: bool) -> (r: Vec<u8>)
    ensures
        r@ == selected_headers_spec(raw@, fields@, keep),
{
    let headers = crate::mime::headers_only(raw);
    let ghost hs = crate::mime::headers_view(headers@);
    let mut out: Vec<u8> = Vec::new();
    let mut i: usize = 0;
    assert(hs.take(0) =~= Seq::<(Seq<char>, Seq<char>)>::empty());
    while i < headers.len()
        invariant
            i <= headers@.len(),
            hs == crate::mime::headers_view(headers@),
            out@ == selected_lines(hs.take(i as int), fields@, keep),
        decreases headers@.len() - i,
    {
        assert(hs.take(i + 1).drop_last() =~= hs.take(i as int));
        assert(hs.take(i + 1).last() == (headers@[i as int].0@, headers@[i as int].1@));
        let name = headers[i].0.as_str().as_bytes();
        if is_wanted(fields, name) == keep {
            push_all(&mut out, name);
            push_lit(&mut out, ": ");
            push_all(&mut out, headers[i].1.as_str().as_bytes());
            out.push(13);
            out.push(10);
        }
        assert(out@ =~= selected_lines(hs.take(i + 1), fields@, keep));
        i += 1;
    }
    assert(hs.take(i as int) =~= hs);
    out.push(13);
    out.push(10);
    out
}

/// The bytes of a FETCH `BODY[section]`: the whole message, its header block (through the blank
/// line), its text, selected header lines, or a numeric part's body or MIME header (empty when
/// the part does not exist).
pub open spec fn section_spec(raw: Seq<u8>, section: Section) -> Seq<u8> {
    let off = crate::mime::body_offset_spec(raw);
    match section {
        Section::Full => raw,
        Section::Header => raw.subrange(0, off),
        Section::Text => raw.subrange(off, raw.len() as int),
        Section::HeaderFields(f) => selected_headers_spec(raw, f@, true),
        Section::HeaderFieldsNot(f) => selected_headers_spec(raw, f@, false),
        Section::Part(p) => match part_walk(raw, p@) {
            Some(seg) => seg.subrange(crate::mime::body_offset_spec(seg), seg.len() as int),
            None => seq![],
        },
        Section::PartMime(p) => match part_walk(raw, p@) {
            Some(seg) => seg.subrange(0, crate::mime::body_offset_spec(seg)),
            None => seq![],
        },
    }
}

/// Extract the bytes for a FETCH `BODY[section]` request. `[]`, `[HEADER]` and `[TEXT]` borrow
/// the raw bytes (the partial-fetch path then slices only the requested window); the others
/// build new bytes.
pub fn extract_section<'a>(raw: &'a [u8], section: &Section) -> (r: Cow<'a, [u8]>)
    ensures
        r@ == section_spec(raw@, *section),
        (section is Full || section is Header || section is Text) ==> r is Borrowed,
{
    match section {
        Section::Full => Cow::Borrowed(raw),
        Section::Header => Cow::Borrowed(slice_of(raw, 0, body_offset(raw))),
        Section::Text => Cow::Borrowed(slice_of(raw, body_offset(raw), raw.len())),
        Section::HeaderFields(fields) => Cow::Owned(selected_headers(raw, fields, true)),
        Section::HeaderFieldsNot(fields) => Cow::Owned(selected_headers(raw, fields, false)),
        Section::Part(path) => Cow::Owned(
            match extract_part(raw, path.as_slice()) {
                Some(seg) => {
                    let off = body_offset(seg.as_slice());
                    to_vec(slice_of(seg.as_slice(), off, seg.len()))
                },
                None => Vec::new(),
            },
        ),
        Section::PartMime(path) => Cow::Owned(
            match extract_part(raw, path.as_slice()) {
                Some(seg) => {
                    let off = body_offset(seg.as_slice());
                    to_vec(slice_of(seg.as_slice(), 0, off))
                },
                None => Vec::new(),
            },
        ),
    }
}

/// The decoded body of a FETCH `BINARY[section]` (RFC 3516): the whole message for an empty
/// path, else that part (empty when it does not exist); its Content-Transfer-Encoding
/// (trimmed, case-insensitive) decides the decoding: base64 (empty when invalid),
/// quoted-printable, or none.
pub open spec fn binary_spec(raw: Seq<u8>, path: Seq<u32>) -> Seq<u8> {
    match (if path.len() == 0 { Some(raw) } else { part_walk(raw, path) }) {
        None => seq![],
        Some(seg) => {
            let off = crate::mime::body_offset_spec(seg);
            let hs = crate::mime::text_pairs_bytes(
                crate::mime::pairs_text(crate::mime::header_block_spec(seg.subrange(0, off))),
            );
            let cte = match crate::mime::header_value(hs, crate::bytes::lit("Content-Transfer-Encoding")) {
                Some(v) => crate::bytes::lower_seq(crate::bytes::trim_spec(v)),
                None => seq![],
            };
            let body = seg.subrange(off, seg.len() as int);
            if cte == crate::bytes::lit("base64") {
                match crate::base64::b64_decode_spec(body) {
                    Some(d) => d,
                    None => seq![],
                }
            } else if cte == crate::bytes::lit("quoted-printable") {
                crate::mime::qp_from(body, 0)
            } else {
                body
            }
        },
    }
}

fn find_text_header(hs: &Vec<(String, String)>, name: &str) -> (r: Option<usize>)
    ensures
        match r {
            Some(k) => k < hs@.len() && crate::mime::header_index(
                crate::mime::text_pairs_bytes(crate::mime::headers_view(hs@)),
                crate::bytes::lit(name),
                0,
            ) == k,
            None => crate::mime::header_index(
                crate::mime::text_pairs_bytes(crate::mime::headers_view(hs@)),
                crate::bytes::lit(name),
                0,
            ) == hs@.len(),
        },
{
    let ghost h = crate::mime::text_pairs_bytes(crate::mime::headers_view(hs@));
    let mut i: usize = 0;
    while i < hs.len()
        invariant
            i <= hs@.len(),
            h == crate::mime::text_pairs_bytes(crate::mime::headers_view(hs@)),
            h.len() == hs@.len(),
            crate::mime::header_index(h, crate::bytes::lit(name), i as int) == crate::mime::header_index(
                h,
                crate::bytes::lit(name),
                0,
            ),
        decreases hs@.len() - i,
    {
        assert(h[i as int].0 == crate::bytes::utf8(hs@[i as int].0@));
        if is_kw(hs[i].0.as_str().as_bytes(), name) {
            return Some(i);
        }
        i += 1;
    }
    None
}

/// Extract and Content-Transfer-Encoding-decode a body part for a FETCH `BINARY[section]`.
pub fn extract_binary(raw: &[u8], path: &[u32]) -> (r: Vec<u8>)
    ensures
        r@ == binary_spec(raw@, path@),
{
    let segment = if path.len() == 0 {
        to_vec(raw)
    } else {
        match extract_part(raw, path) {
            Some(seg) => seg,
            None => return Vec::new(),
        }
    };
    let headers = crate::mime::headers_only(segment.as_slice());
    let ghost hb = crate::mime::text_pairs_bytes(crate::mime::headers_view(headers@));
    let cte = match find_text_header(&headers, "Content-Transfer-Encoding") {
        Some(k) => {
            assert(hb[k as int].1 == crate::bytes::utf8(headers@[k as int].1@));
            to_lower(trim(headers[k].1.as_str().as_bytes()))
        },
        None => Vec::new(),
    };
    let off = body_offset(segment.as_slice());
    let body = slice_of(segment.as_slice(), off, segment.len());
    if is_lit(cte.as_slice(), "base64") {
        match crate::base64::base64_decode_bytes(body) {
            Some(d) => d,
            None => Vec::new(),
        }
    } else if is_lit(cte.as_slice(), "quoted-printable") {
        crate::mime::qp_decode(body)
    } else {
        to_vec(body)
    }
}

/// A part path's numbers in decimal, joined by `.`.
pub open spec fn join_path_spec(p: Seq<u32>) -> Seq<u8>
    decreases p.len(),
{
    if p.len() == 0 {
        seq![]
    } else if p.len() == 1 {
        crate::smtp::dec_spec(p[0] as nat)
    } else {
        join_path_spec(p.drop_last()) + seq![46u8] + crate::smtp::dec_spec(p.last() as nat)
    }
}

pub(crate) fn push_path(out: &mut Vec<u8>, p: &[u32])
    ensures
        final(out)@ == old(out)@ + join_path_spec(p@),
{
    let ghost o0 = out@;
    let mut i: usize = 0;
    assert(p@.take(0) =~= Seq::<u32>::empty());
    while i < p.len()
        invariant
            i <= p@.len(),
            out@ == o0 + join_path_spec(p@.take(i as int)),
        decreases p@.len() - i,
    {
        assert(p@.take(i + 1).drop_last() =~= p@.take(i as int));
        if i > 0 {
            out.push(46);
        }
        push_dec(out, p[i] as usize);
        assert(out@ =~= o0 + join_path_spec(p@.take(i + 1)));
        i += 1;
    }
    assert(p@.take(i as int) =~= p@);
}

/// A part path as its wire form, e.g. `1.2`.
pub fn join_path(p: &[u32]) -> (r: String)
    ensures
        r@ == crate::text::utf8_lossy(join_path_spec(p@)),
{
    let mut out: Vec<u8> = Vec::new();
    push_path(&mut out, p);
    assert(out@ =~= join_path_spec(p@));
    lossy_string(out.as_slice())
}

/// Field names joined by SP.
pub open spec fn join_fields(f: Seq<Vec<u8>>) -> Seq<u8> {
    join_sp(f.map_values(|x: Vec<u8>| x@))
}

fn push_fields(out: &mut Vec<u8>, f: &Vec<Vec<u8>>)
    ensures
        final(out)@ == old(out)@ + join_fields(f@),
{
    let ghost o0 = out@;
    let ghost v = f@.map_values(|x: Vec<u8>| x@);
    let mut i: usize = 0;
    assert(v.take(0) =~= Seq::<Seq<u8>>::empty());
    while i < f.len()
        invariant
            i <= f@.len(),
            v == f@.map_values(|x: Vec<u8>| x@),
            out@ == o0 + join_sp(v.take(i as int)),
        decreases f@.len() - i,
    {
        assert(v.take(i + 1).drop_last() =~= v.take(i as int));
        assert(v[i as int] == f@[i as int]@);
        if i > 0 {
            out.push(32);
        }
        push_all(out, f[i].as_slice());
        assert(out@ =~= o0 + join_sp(v.take(i + 1)));
        i += 1;
    }
    assert(v.take(i as int) =~= v);
}

/// The wire label of a section, for the FETCH `BODY[label]` response.
pub open spec fn section_label_spec(section: Section) -> Seq<u8> {
    match section {
        Section::Full => seq![],
        Section::Header => crate::bytes::lit("HEADER"),
        Section::Text => crate::bytes::lit("TEXT"),
        Section::HeaderFields(f) => crate::bytes::lit("HEADER.FIELDS (") + join_fields(f@) + seq![41u8],
        Section::HeaderFieldsNot(f) => crate::bytes::lit("HEADER.FIELDS.NOT (") + join_fields(f@)
            + seq![41u8],
        Section::Part(p) => join_path_spec(p@),
        Section::PartMime(p) => join_path_spec(p@) + crate::bytes::lit(".MIME"),
    }
}

/// Render a [`Section`] back to its IMAP wire label.
pub fn section_label(section: &Section) -> (r: String)
    ensures
        r@ == crate::text::utf8_lossy(section_label_spec(*section)),
{
    let mut out: Vec<u8> = Vec::new();
    push_section_label(&mut out, section);
    assert(out@ =~= section_label_spec(*section));
    lossy_string(out.as_slice())
}

/// Append the wire label of a section.
pub(crate) fn push_section_label(out: &mut Vec<u8>, section: &Section)
    ensures
        final(out)@ == old(out)@ + section_label_spec(*section),
{
    let ghost o0 = out@;
    match section {
        Section::Full => {},
        Section::Header => push_lit(out, "HEADER"),
        Section::Text => push_lit(out, "TEXT"),
        Section::HeaderFields(f) => {
            push_lit(out, "HEADER.FIELDS (");
            push_fields(out, f);
            out.push(41);
        },
        Section::HeaderFieldsNot(f) => {
            push_lit(out, "HEADER.FIELDS.NOT (");
            push_fields(out, f);
            out.push(41);
        },
        Section::Part(p) => push_path(out, p.as_slice()),
        Section::PartMime(p) => {
            push_path(out, p.as_slice());
            push_lit(out, ".MIME");
        },
    }
    assert(out@ =~= o0 + section_label_spec(*section));
}

/// A `<start.count>` partial window (RFC 9051 §6.4.5): the bytes from `start` for at most
/// `count`, empty when `start` is past the end; the origin is reported back.
pub open spec fn partial_spec(bytes: Seq<u8>, partial: Option<(u32, u32)>) -> (Seq<u8>, Option<u32>) {
    match partial {
        None => (bytes, None),
        Some((start, count)) => {
            let end = if start + count < bytes.len() { start + count } else { bytes.len() as int };
            (
                if start >= bytes.len() { seq![] } else { bytes.subrange(start as int, end) },
                Some(start),
            )
        },
    }
}

/// Apply a `<start.count>` partial to a byte slice.
pub fn apply_partial(bytes: &[u8], partial: Option<(u32, u32)>) -> (r: (Vec<u8>, Option<u32>))
    ensures
        (r.0@, r.1) == partial_spec(bytes@, partial),
{
    match partial {
        None => (to_vec(bytes), None),
        Some((start, count)) => {
            let s = start as u64;
            let sum = s + count as u64;
            let len = bytes.len() as u64;
            if s >= len {
                (Vec::new(), Some(start))
            } else {
                let end: u64 = if sum < len { sum } else { len };
                (to_vec(slice_of(bytes, s as usize, end as usize)), Some(start))
            }
        },
    }
}

} // verus!
