//! SORT and THREAD (RFC 5256): the sort keys of a message, the comparison of two messages by a
//! criteria list, and the grouping of messages into threads.
use vstd::prelude::*;
use crate::bytes::{lit, push_all, to_vec};
use crate::store::{lex_less, Mailbox, Message};
use super::parser::{SortCriterion, SortKey, ThreadAlgorithm};

verus! {

/// The three-way comparison of two numbers: -1, 0 or 1.
pub open spec fn three_way(a: int, b: int) -> i8 {
    if a < b {
        -1i8
    } else if a > b {
        1i8
    } else {
        0i8
    }
}

fn order_u64(a: u64, b: u64) -> (r: i8)
    ensures
        r == three_way(a as int, b as int),
{
    if a < b {
        -1
    } else if a > b {
        1
    } else {
        0
    }
}

fn order_i64(a: i64, b: i64) -> (r: i8)
    ensures
        r == three_way(a as int, b as int),
{
    if a < b {
        -1
    } else if a > b {
        1
    } else {
        0
    }
}

fn order_bytes(a: &[u8], b: &[u8]) -> (r: i8)
    ensures
        -1 <= r <= 1,
        r == (if crate::store::lex_lt(a@, b@) {
            -1i8
        } else if crate::store::lex_lt(b@, a@) {
            1i8
        } else {
            0i8
        }),
{
    if lex_less(a, b) {
        -1
    } else if lex_less(b, a) {
        1
    } else {
        0
    }
}

/// Days compared year, then month, then day.
pub open spec fn day_order(a: (i64, i64, i64), b: (i64, i64, i64)) -> i8 {
    if a.0 != b.0 {
        three_way(a.0 as int, b.0 as int)
    } else if a.1 != b.1 {
        three_way(a.1 as int, b.1 as int)
    } else {
        three_way(a.2 as int, b.2 as int)
    }
}

fn order_day(a: (i64, i64, i64), b: (i64, i64, i64)) -> (r: i8)
    ensures
        r == day_order(a, b),
{
    let c = order_i64(a.0, b.0);
    if c != 0 {
        return c;
    }
    let c = order_i64(a.1, b.1);
    if c != 0 {
        return c;
    }
    order_i64(a.2, b.2)
}

/// The date a message sorts by (RFC 5256): its `Date:` header's day, else its INTERNALDATE's.
pub fn sort_date(m: &Message) -> (r: (i64, i64, i64))
    ensures
        (r.0 as int, r.1 as int, r.2 as int) == crate::search::sent_day(*m),
{
    crate::search::sent_day_exec(m)
}

/// Whether `s` starts with the ASCII bytes of `p`.
fn strip<'a>(s: &'a [u8], p: &str) -> (r: Option<&'a [u8]>)
    ensures
        r matches Some(t) ==> t@.len() < s@.len(),
        match r {
            Some(t) => crate::bytes::lit(p).len() > 0 && crate::bytes::lit(p).len() <= s@.len() && s@.take(
                crate::bytes::lit(p).len() as int,
            ) == crate::bytes::lit(p) && t@ == s@.skip(crate::bytes::lit(p).len() as int),
            None => !(crate::bytes::lit(p).len() > 0 && crate::bytes::lit(p).len() <= s@.len() && s@.take(
                crate::bytes::lit(p).len() as int,
            ) == crate::bytes::lit(p)),
        },
{
    let pb = p.as_bytes();
    if pb.len() > 0 && crate::bytes::starts_with(s, pb) {
        let t = crate::bytes::slice_of(s, pb.len(), s.len());
        assert(t@ =~= s@.skip(pb@.len() as int));
        Some(t)
    } else {
        None
    }
}

/// Whether `t` starts with the non-empty `p`.
pub open spec fn has_prefix(t: Seq<u8>, p: Seq<u8>) -> bool {
    p.len() > 0 && p.len() <= t.len() && t.take(p.len() as int) == p
}

/// A lower-cased subject with leading `re:`, `fwd:` and `fw:` prefixes (and the white space
/// before and after each) stripped one after another.
pub open spec fn base_strip(s: Seq<u8>) -> Seq<u8>
    decreases s.len(),
{
    let t = crate::bytes::trim_start_spec(s);
    proof {
        crate::bytes::lemma_lead_ws_le(s);
    }
    let p = if has_prefix(t, lit("re:")) {
        lit("re:")
    } else if has_prefix(t, lit("fwd:")) {
        lit("fwd:")
    } else {
        lit("fw:")
    };
    if has_prefix(t, p) {
        let rest = crate::bytes::trim_start_spec(t.skip(p.len() as int));
        proof {
            crate::bytes::lemma_lead_ws_le(t.skip(p.len() as int));
        }
        base_strip(rest)
    } else {
        s
    }
}

/// The subject header's bytes (empty when there is none).
pub open spec fn subject_of(p: &crate::mime::ParsedMessage) -> Seq<u8> {
    match super::response::hval(p, "Subject") {
        Some(v) => v,
        None => seq![],
    }
}

/// The RFC 5256 base subject: the RFC 2047-decoded Subject, lower-cased (full Unicode), trimmed,
/// with leading `re:`, `fwd:` and `fw:` prefixes stripped one after another.
pub fn base_subject(m: &Message) -> (r: Vec<u8>)
    ensures
        r@ == subject_key(m.raw@),
        exists|p: crate::mime::ParsedMessage| {
            &&& crate::mime::is_parse_of(p, m.raw@)
            &&& r@ == base_strip(crate::bytes::trim_spec(crate::bytes::utf8(crate::text::unicode_lower(
                crate::text::utf8_lossy(crate::mime::ew_from(#[trigger] subject_of(&p), 0, false)),
            ))))
        },
{
    let p = m.parsed_cached();
    let subject: &str = match p.header("Subject") {
        Some(v) => {
            proof {
                let k = crate::mime::header_index(crate::mime::message_headers(&p), crate::bytes::lit("Subject"), 0);
                assert(crate::mime::message_headers(&p)[k].1 == crate::bytes::utf8(p.headers@[k].1@));
            }
            v
        },
        None => "",
    };
    proof {
        reveal_strlit("");
        assert(lit(subject) == subject_of(&p));
    }
    let decoded = crate::mime::decode_encoded_words(subject);
    let lower = crate::text::to_lowercase(decoded.as_str());
    let lb = lower.as_str().as_bytes();
    assert(lb@ == crate::bytes::utf8(lower@));
    let mut s: &[u8] = crate::bytes::trim(lb);
    let ghost want = base_strip(s@);
    assert(want == base_strip(crate::bytes::trim_spec(crate::bytes::utf8(crate::text::unicode_lower(
        crate::text::utf8_lossy(crate::mime::ew_from(subject_of(&p), 0, false)),
    )))));
    loop
        invariant
            base_strip(s@) == want,
        ensures
            base_strip(s@) == want,
            base_strip(s@) == s@,
        decreases s@.len(),
    {
        let t = crate::bytes::trim_start(s);
        proof {
            crate::bytes::lemma_lead_ws_le(s@);
        }
        let ghost s_old = s@;
        match strip(t, "re:") {
            Some(rest) => {
                s = crate::bytes::trim_start(rest);
                assert(base_strip(s_old) == base_strip(s@));
            },
            None => match strip(t, "fwd:") {
                Some(rest) => {
                    s = crate::bytes::trim_start(rest);
                    assert(base_strip(s_old) == base_strip(s@));
                },
                None => match strip(t, "fw:") {
                    Some(rest) => {
                        s = crate::bytes::trim_start(rest);
                        assert(base_strip(s_old) == base_strip(s@));
                    },
                    None => {
                        assert(base_strip(s@) == s@);
                        break;
                    },
                },
            },
        }
    }
    let r = to_vec(s);
    proof {
        assert(crate::mime::message_headers(&p) == raw_headers(m.raw@));
        assert(r@ == base_strip(crate::bytes::trim_spec(crate::bytes::utf8(crate::text::unicode_lower(
            crate::text::utf8_lossy(crate::mime::ew_from(subject_of(&p), 0, false)),
        )))));
    }
    r
}

/// The header fields of a raw message as byte pairs, as its parse holds them.
pub open spec fn raw_headers(raw: Seq<u8>) -> Seq<(Seq<u8>, Seq<u8>)> {
    crate::mime::text_pairs_bytes(
        crate::mime::pairs_text(crate::mime::header_block_spec(raw.subrange(0, crate::mime::body_offset_spec(raw)))),
    )
}

/// The addresses of the first header `name` of a raw message (none without one).
pub open spec fn raw_addrs(raw: Seq<u8>, name: Seq<u8>) -> Seq<
    (Option<Seq<char>>, Option<Seq<char>>, Option<Seq<char>>, Option<Seq<char>>),
> {
    match crate::mime::header_value(raw_headers(raw), name) {
        Some(v) => crate::mime::address_list_spec(v),
        None => seq![],
    }
}

/// The address sort key of a raw message for the header `name` (see [`addr_key_spec`]).
pub open spec fn sort_addr_key(raw: Seq<u8>, name: Seq<u8>, display: bool) -> Seq<u8> {
    if raw_addrs(raw, name).len() == 0 {
        seq![]
    } else {
        addr_key_spec(raw_addrs(raw, name)[0], display)
    }
}

/// The base-subject sort key of a raw message (see [`base_subject`]).
pub open spec fn subject_key(raw: Seq<u8>) -> Seq<u8> {
    let subj = match crate::mime::header_value(raw_headers(raw), lit("Subject")) {
        Some(v) => v,
        None => seq![],
    };
    base_strip(crate::bytes::trim_spec(crate::bytes::utf8(crate::text::unicode_lower(
        crate::text::utf8_lossy(crate::mime::ew_from(subj, 0, false)),
    ))))
}

/// Byte strings compared lexicographically: -1, 0 or 1.
pub open spec fn lex3(x: Seq<u8>, y: Seq<u8>) -> i8 {
    if crate::store::lex_lt(x, y) {
        -1i8
    } else if crate::store::lex_lt(y, x) {
        1i8
    } else {
        0i8
    }
}

/// How one SORT key orders two messages, ascending: -1, 0 or 1.
pub open spec fn criterion_order(a: Message, b: Message, key: SortKey) -> i8 {
    match key {
        SortKey::Arrival => three_way(a.internal_date as int, b.internal_date as int),
        SortKey::Size => three_way(a.raw@.len() as int, b.raw@.len() as int),
        SortKey::Date => {
            let da = crate::search::sent_day(a);
            let db = crate::search::sent_day(b);
            day_order((da.0 as i64, da.1 as i64, da.2 as i64), (db.0 as i64, db.1 as i64, db.2 as i64))
        },
        SortKey::Subject => lex3(subject_key(a.raw@), subject_key(b.raw@)),
        SortKey::From => lex3(sort_addr_key(a.raw@, lit("From"), false), sort_addr_key(b.raw@, lit("From"), false)),
        SortKey::To => lex3(sort_addr_key(a.raw@, lit("To"), false), sort_addr_key(b.raw@, lit("To"), false)),
        SortKey::Cc => lex3(sort_addr_key(a.raw@, lit("Cc"), false), sort_addr_key(b.raw@, lit("Cc"), false)),
        SortKey::DisplayFrom => lex3(sort_addr_key(a.raw@, lit("From"), true), sort_addr_key(b.raw@, lit("From"), true)),
        SortKey::DisplayTo => lex3(sort_addr_key(a.raw@, lit("To"), true), sort_addr_key(b.raw@, lit("To"), true)),
    }
}

/// An order turned around.
pub open spec fn flip(o: i8) -> i8 {
    if o < 0 {
        1i8
    } else if o > 0 {
        -1i8
    } else {
        0i8
    }
}

/// How a criteria list orders two messages: the first criterion that tells them apart
/// (reversed where asked), ties broken on ascending UID.
pub open spec fn sort_order(a: Message, b: Message, cs: Seq<SortCriterion>) -> i8
    decreases cs.len(),
{
    if cs.len() == 0 {
        three_way(a.uid as int, b.uid as int)
    } else {
        let o = criterion_order(a, b, cs[0].key);
        let o2: i8 = if cs[0].reverse { flip(o) } else { o };
        if o2 != 0 {
            o2
        } else {
            sort_order(a, b, cs.skip(1))
        }
    }
}

/// The sort key of an address: its mailbox lower-cased, or for a DISPLAY key its display name
/// (the mailbox when there is none), RFC 2047-decoded and lower-cased.
pub open spec fn addr_key_spec(a: (Option<Seq<char>>, Option<Seq<char>>, Option<Seq<char>>, Option<Seq<char>>), display: bool) -> Seq<u8> {
    if display {
        let text = match a.0 {
            Some(n) => n,
            None => match a.2 {
                Some(mb) => mb,
                None => seq![],
            },
        };
        crate::bytes::utf8(crate::text::unicode_lower(
            crate::text::utf8_lossy(crate::mime::ew_from(crate::bytes::utf8(text), 0, false)),
        ))
    } else {
        match a.2 {
            Some(mb) => crate::bytes::utf8(crate::text::unicode_lower(mb)),
            None => seq![],
        }
    }
}

/// An address sort key (RFC 5256 §3, RFC 5957): the first address's mailbox, or for the
/// DISPLAY keys its decoded display name (the mailbox when there is none), lower-cased.
pub fn addr_sort_key(m: &Message, header: &str, display: bool) -> (r: Vec<u8>)
    ensures
        r@ == sort_addr_key(m.raw@, lit(header), display),
        exists|p: crate::mime::ParsedMessage| {
            &&& crate::mime::is_parse_of(p, m.raw@)
            &&& r@ == if (#[trigger] super::response::haddrs(&p, header)).len() == 0 {
                seq![]
            } else {
                addr_key_spec(super::response::haddrs(&p, header)[0], display)
            }
        },
{
    let p = m.parsed_cached();
    let addrs = p.addresses(header);
    proof {
        assert(crate::mime::message_headers(&p) == raw_headers(m.raw@));
        assert(super::response::haddrs(&p, header) == raw_addrs(m.raw@, lit(header)));
        let k = crate::mime::header_index(crate::mime::message_headers(&p), crate::bytes::lit(header), 0);
        if 0 <= k < p.headers@.len() {
            assert(crate::mime::message_headers(&p)[k].1 == crate::bytes::utf8(p.headers@[k].1@));
        }
        assert(crate::mime::addresses_view(addrs@) == super::response::haddrs(&p, header));
    }
    if addrs.len() == 0 {
        return Vec::new();
    }
    let a = &addrs[0];
    assert(crate::mime::address_view(*a) == super::response::haddrs(&p, header)[0]);
    if display {
        let text: &str = match &a.name {
            Some(n) => n.as_str(),
            None => match &a.mailbox {
                Some(mb) => mb.as_str(),
                None => "",
            },
        };
        proof {
            reveal_strlit("");
        }
        let d = crate::mime::decode_encoded_words(text);
        let l = crate::text::to_lowercase(d.as_str());
        let r = to_vec(l.as_str().as_bytes());
        assert(r@ == addr_key_spec(super::response::haddrs(&p, header)[0], display));
        r
    } else {
        match &a.mailbox {
            Some(mb) => {
                let l = crate::text::to_lowercase(mb.as_str());
                let r = to_vec(l.as_str().as_bytes());
                assert(r@ == addr_key_spec(super::response::haddrs(&p, header)[0], display));
                r
            },
            None => Vec::new(),
        }
    }
}

fn key_order(a: &Message, b: &Message, key: SortKey) -> (r: i8)
    ensures
        -1 <= r <= 1,
        r == criterion_order(*a, *b, key),
        key is Arrival ==> r == three_way(a.internal_date as int, b.internal_date as int),
        key is Size ==> r == three_way(a.raw@.len() as int, b.raw@.len() as int),
        key is Date ==> ({
            let da = crate::search::sent_day(*a);
            let db = crate::search::sent_day(*b);
            r == day_order((da.0 as i64, da.1 as i64, da.2 as i64), (db.0 as i64, db.1 as i64, db.2 as i64))
        }),
{
    match key {
        SortKey::Arrival => order_u64(a.internal_date, b.internal_date),
        SortKey::Size => order_u64(a.size() as u64, b.size() as u64),
        SortKey::Date => order_day(sort_date(a), sort_date(b)),
        SortKey::Subject => {
            let x = base_subject(a);
            let y = base_subject(b);
            order_bytes(x.as_slice(), y.as_slice())
        },
        SortKey::From => order_keys(a, b, "From", false),
        SortKey::To => order_keys(a, b, "To", false),
        SortKey::Cc => order_keys(a, b, "Cc", false),
        SortKey::DisplayFrom => order_keys(a, b, "From", true),
        SortKey::DisplayTo => order_keys(a, b, "To", true),
    }
}

fn order_keys(a: &Message, b: &Message, header: &str, display: bool) -> (r: i8)
    ensures
        -1 <= r <= 1,
        r == lex3(sort_addr_key(a.raw@, lit(header), display), sort_addr_key(b.raw@, lit(header), display)),
{
    let x = addr_sort_key(a, header, display);
    let y = addr_sort_key(b, header, display);
    order_bytes(x.as_slice(), y.as_slice())
}

/// Compare two messages by a SORT criteria list, the first criterion dominant, each possibly
/// reversed; ties break on ascending UID. -1, 0 or 1.
pub fn sort_compare(a: &Message, b: &Message, criteria: &[SortCriterion]) -> (r: i8)
    ensures
        -1 <= r <= 1,
        criteria@.len() == 0 ==> r == three_way(a.uid as int, b.uid as int),
        r == sort_order(*a, *b, criteria@),
{
    let mut i: usize = 0;
    assert(criteria@.skip(0) =~= criteria@);
    while i < criteria.len()
        invariant
            i <= criteria@.len(),
            sort_order(*a, *b, criteria@) == sort_order(*a, *b, criteria@.skip(i as int)),
        decreases criteria@.len() - i,
    {
        assert(criteria@.skip(i as int)[0] == criteria@[i as int]);
        assert(criteria@.skip(i as int).skip(1) =~= criteria@.skip(i + 1));
        let c = criteria[i];
        let o = key_order(a, b, c.key);
        let less = if c.reverse { o > 0 } else { o < 0 };
        let more = if c.reverse { o < 0 } else { o > 0 };
        if less {
            return -1;
        }
        if more {
            return 1;
        }
        i += 1;
    }
    order_u64(a.uid as u64, b.uid as u64)
}

/// The messages at positions `k` and `l` of `idx` are in criteria order (the first not after
/// the second).
pub open spec fn in_order(msgs: Seq<Message>, idx: Seq<usize>, cs: Seq<SortCriterion>, k: int, l: int) -> bool {
    sort_order(msgs[idx[k] as int], msgs[idx[l] as int], cs) <= 0
}

/// Order message indices by a comparison (a stable insertion sort); the indices stay the same
/// multiset, and each message comes no later in criteria order than the next.
pub fn sort_indices(mb: &Mailbox, idx: &mut Vec<usize>, criteria: &[SortCriterion])
    requires
        forall|k: int| 0 <= k < old(idx)@.len() ==> old(idx)@[k] < mb.messages@.len(),
    ensures
        final(idx)@.to_multiset() == old(idx)@.to_multiset(),
        forall|k: int| 0 <= k < final(idx)@.len() ==> final(idx)@[k] < mb.messages@.len(),
        forall|k: int| 0 <= k && k + 1 < final(idx)@.len() ==> #[trigger] in_order(mb.messages@, final(idx)@, criteria@, k, k + 1),
{
    let n = idx.len();
    if n == 0 {
        return;
    }
    let mut i: usize = 1;
    while i < n
        invariant
            1 <= i <= n,
            n == idx@.len(),
            idx@.to_multiset() == old(idx)@.to_multiset(),
            forall|k: int| 0 <= k < idx@.len() ==> idx@[k] < mb.messages@.len(),
            forall|k: int| 0 <= k && k + 1 < i ==> #[trigger] in_order(mb.messages@, idx@, criteria@, k, k + 1),
        decreases n - i,
    {
        let mut j = i;
        while j > 0 && sort_compare(&mb.messages[idx[j - 1]], &mb.messages[idx[j]], criteria) > 0
            invariant
                0 <= j <= i < n,
                n == idx@.len(),
                idx@.to_multiset() == old(idx)@.to_multiset(),
                forall|k: int| 0 <= k < idx@.len() ==> idx@[k] < mb.messages@.len(),
                forall|k: int|
                    0 <= k && k + 1 <= i && k != j - 1 && k != j ==> #[trigger] in_order(mb.messages@, idx@, criteria@, k, k + 1),
                j < i ==> in_order(mb.messages@, idx@, criteria@, j as int, j + 1),
                0 < j < i ==> in_order(mb.messages@, idx@, criteria@, j - 1, j + 1),
            decreases j,
        {
            let x = idx[j - 1];
            let y = idx[j];
            let ghost before = idx@;
            idx.set(j - 1, y);
            idx.set(j, x);
            proof {
                assert(idx@ =~= before.update(j - 1, y).update(j as int, x));
                lemma_swap(before, j - 1, j as int);
                let ms = mb.messages@;
                let cs = criteria@;
                law_sort_order_antisymmetric(ms[x as int], ms[y as int], cs);
                assert(in_order(ms, idx@, cs, j - 1, j as int));
                assert forall|k: int|
                    0 <= k && k + 1 <= i && k != j - 2 && k != j - 1 implies #[trigger] in_order(ms, idx@, cs, k, k + 1) by {
                    if k == j {
                        assert(in_order(ms, before, cs, j - 1, j + 1));
                    } else {
                        assert(in_order(ms, before, cs, k, k + 1));
                    }
                }
                if 0 < j - 1 {
                    assert(in_order(ms, before, cs, j - 2, (j - 2) + 1));
                }
            }
            j -= 1;
        }
        proof {
            if j > 0 {
                assert(in_order(mb.messages@, idx@, criteria@, j - 1, j as int));
            }
        }
        i += 1;
    }
}

proof fn lemma_swap<T>(s: Seq<T>, a: int, b: int)
    requires
        0 <= a < b < s.len(),
    ensures
        s.update(a, s[b]).update(b, s[a]).to_multiset() == s.to_multiset(),
{
    broadcast use vstd::multiset::group_multiset_axioms;
    let t = s.update(a, s[b]);
    vstd::seq_lib::to_multiset_update(s, a, s[b]);
    vstd::seq_lib::to_multiset_update(t, b, s[a]);
    assert(t[b] == s[b]);
    s.to_multiset_ensures();
    assert(s.contains(s[a]));
    assert(s.to_multiset().count(s[a]) > 0);
    assert(s.to_multiset().insert(s[b]).remove(s[a]).insert(s[a]).remove(s[b]) =~= s.to_multiset());
}

fn is_angle(b: u8) -> (r: bool)
    ensures
        r == (b == 60 || b == 62),
{
    b == 60 || b == 62
}

/// Number of leading `<` / `>` bytes.
pub open spec fn lead_angles(s: Seq<u8>) -> nat
    decreases s.len(),
{
    if s.len() > 0 && (s[0] == 60 || s[0] == 62) { 1 + lead_angles(s.drop_first()) } else { 0 }
}

/// Number of trailing `<` / `>` bytes.
pub open spec fn trail_angles(s: Seq<u8>) -> nat
    decreases s.len(),
{
    if s.len() > 0 && (s.last() == 60 || s.last() == 62) { 1 + trail_angles(s.drop_last()) } else { 0 }
}

proof fn lemma_angles(s: Seq<u8>)
    ensures
        lead_angles(s) <= s.len(),
        trail_angles(s) <= s.len(),
        forall|i: int| 0 <= i < lead_angles(s) ==> (s[i] == 60 || s[i] == 62),
        lead_angles(s) < s.len() ==> !(s[lead_angles(s) as int] == 60 || s[lead_angles(s) as int] == 62),
        forall|i: int| s.len() - trail_angles(s) <= i < s.len() ==> (s[i] == 60 || s[i] == 62),
        trail_angles(s) < s.len() ==> !(s[s.len() - trail_angles(s) - 1] == 60 || s[s.len() - trail_angles(s) - 1] == 62),
    decreases s.len(),
{
    if s.len() > 0 {
        lemma_angles(s.drop_first());
        lemma_angles(s.drop_last());
        if s[0] == 60 || s[0] == 62 {
            assert forall|i: int| 0 <= i < lead_angles(s) implies (s[i] == 60 || s[i] == 62) by {
                if i > 0 {
                    assert(s[i] == s.drop_first()[i - 1]);
                }
            }
        }
        if s.last() == 60 || s.last() == 62 {
            assert forall|i: int| s.len() - trail_angles(s) <= i < s.len() implies (s[i] == 60 || s[i] == 62) by {
                if i < s.len() - 1 {
                    assert(s[i] == s.drop_last()[i]);
                }
            }
        }
    }
}

/// A Message-ID value without surrounding white space and angle brackets; `None` when nothing
/// is left.
pub open spec fn id_core(v: Seq<u8>) -> Option<Seq<u8>> {
    let t = crate::bytes::trim_spec(v);
    let u = t.subrange(lead_angles(t) as int, t.len() as int);
    let c = u.subrange(0, u.len() - trail_angles(u));
    if c.len() == 0 {
        None
    } else {
        Some(c)
    }
}

/// A message's own Message-ID with its angle brackets and surrounding white space removed;
/// `None` when absent or empty.
pub fn msg_id(m: &Message) -> (r: Option<Vec<u8>>)
    ensures
        exists|p: crate::mime::ParsedMessage| {
            &&& crate::mime::is_parse_of(p, m.raw@)
            &&& match #[trigger] super::response::hval(&p, "Message-ID") {
                Some(v) => match r {
                    Some(x) => id_core(v) == Some(x@),
                    None => id_core(v) is None,
                },
                None => r is None,
            }
        },
{
    let p = m.parsed_cached();
    let v: &str = match p.header("Message-ID") {
        Some(v) => v,
        None => {
            assert(super::response::hval(&p, "Message-ID") is None);
            return None;
        },
    };
    proof {
        let k = crate::mime::header_index(crate::mime::message_headers(&p), crate::bytes::lit("Message-ID"), 0);
        assert(crate::mime::message_headers(&p)[k].1 == crate::bytes::utf8(p.headers@[k].1@));
        assert(super::response::hval(&p, "Message-ID") == Some(crate::bytes::utf8(v@)));
    }
    let t = crate::bytes::trim(v.as_bytes());
    proof {
        lemma_angles(t@);
    }
    let mut a: usize = 0;
    while a < t.len() && is_angle(t[a])
        invariant
            a <= lead_angles(t@),
            lead_angles(t@) <= t@.len(),
            forall|i: int| 0 <= i < lead_angles(t@) ==> (t@[i] == 60 || t@[i] == 62),
            lead_angles(t@) < t@.len() ==> !(t@[lead_angles(t@) as int] == 60 || t@[lead_angles(t@) as int] == 62),
        decreases t@.len() - a,
    {
        a += 1;
    }
    let u = crate::bytes::slice_of(t, a, t.len());
    proof {
        lemma_angles(u@);
    }
    let mut b: usize = u.len();
    while b > 0 && is_angle(u[b - 1])
        invariant
            u@.len() - trail_angles(u@) <= b <= u@.len(),
            forall|i: int| u@.len() - trail_angles(u@) <= i < u@.len() ==> (u@[i] == 60 || u@[i] == 62),
            trail_angles(u@) < u@.len() ==> !(u@[u@.len() - trail_angles(u@) - 1] == 60 || u@[u@.len() - trail_angles(u@) - 1] == 62),
        decreases b,
    {
        b -= 1;
    }
    proof {
        assert(b == u@.len() - trail_angles(u@));
        assert(a == lead_angles(t@));
        assert(u@ == t@.subrange(lead_angles(t@) as int, t@.len() as int));
    }
    if b == 0 {
        assert(id_core(crate::bytes::utf8(v@)) is None);
        assert(super::response::hval(&p, "Message-ID") == Some(crate::bytes::utf8(v@)));
        None
    } else {
        let x = to_vec(crate::bytes::slice_of(u, 0, b));
        assert(id_core(crate::bytes::utf8(v@)) == Some(x@));
        assert(super::response::hval(&p, "Message-ID") == Some(crate::bytes::utf8(v@)));
        Some(x)
    }
}

/// The bytes that separate message-ids in In-Reply-To and References: `<`, `>` and white space.
pub open spec fn ref_sep(b: u8) -> bool {
    b == 60 || b == 62 || crate::bytes::is_ws(b)
}

fn is_ref_sep(b: u8) -> (r: bool)
    ensures
        r == ref_sep(b),
{
    b == 60 || b == 62 || crate::bytes::byte_is_ws(b)
}

/// The end of the piece that starts at `i`: the next separator, or the length.
pub open spec fn ref_end(s: Seq<u8>, i: int) -> int
    decreases s.len() - i,
{
    if i < 0 || i >= s.len() || ref_sep(s[i]) {
        if i < 0 { 0 } else if i > s.len() { s.len() as int } else { i }
    } else {
        ref_end(s, i + 1)
    }
}

pub proof fn lemma_ref_end(s: Seq<u8>, i: int)
    requires
        0 <= i <= s.len(),
    ensures
        i <= ref_end(s, i) <= s.len(),
        forall|k: int| i <= k < ref_end(s, i) ==> !ref_sep(s[k]),
        ref_end(s, i) < s.len() ==> ref_sep(s[ref_end(s, i)]),
    decreases s.len() - i,
{
    if i < s.len() && !ref_sep(s[i]) {
        lemma_ref_end(s, i + 1);
    }
}

/// The pieces from `i` on, between separators, that hold an `@`.
pub open spec fn refs_from(s: Seq<u8>, i: int) -> Seq<Seq<u8>>
    decreases s.len() - i,
{
    if i < 0 || i >= s.len() {
        seq![]
    } else if ref_sep(s[i]) {
        refs_from(s, i + 1)
    } else {
        proof {
            lemma_ref_end(s, i + 1);
        }
        let e = ref_end(s, i + 1);
        let t = s.subrange(i, e);
        (if t.contains(64u8) { seq![t] } else { seq![] }) + refs_from(s, e)
    }
}

/// The message-ids a header value refers to.
pub open spec fn refs_of(v: Option<Seq<u8>>) -> Seq<Seq<u8>> {
    match v {
        Some(b) => refs_from(b, 0),
        None => seq![],
    }
}

fn push_refs(out: &mut Vec<Vec<u8>>, b: &[u8])
    ensures
        crate::bytes::views(final(out)@) == crate::bytes::views(old(out)@) + refs_from(b@, 0),
{
    let ghost o0 = crate::bytes::views(out@);
    let mut i: usize = 0;
    while i < b.len()
        invariant
            i <= b@.len(),
            crate::bytes::views(out@) + refs_from(b@, i as int) == o0 + refs_from(b@, 0),
        decreases b@.len() - i,
    {
        if is_ref_sep(b[i]) {
            i += 1;
        } else {
            proof {
                lemma_ref_end(b@, i + 1);
            }
            let ghost before = crate::bytes::views(out@);
            let mut at = b[i] == 64;
            let mut e = i + 1;
            proof {
                let t = b@.subrange(i as int, e as int);
                assert(t.len() == 1 && t[0] == b@[i as int]);
                if b@[i as int] == 64u8 {
                    assert(t.contains(64u8));
                }
                if t.contains(64u8) {
                    let k = choose|k: int| 0 <= k < t.len() && t[k] == 64u8;
                }
            }
            while e < b.len() && !is_ref_sep(b[e])
                invariant
                    i < e <= b@.len(),
                    ref_end(b@, e as int) == ref_end(b@, i + 1),
                    at == b@.subrange(i as int, e as int).contains(64u8),
                decreases b@.len() - e,
            {
                proof {
                    let t0 = b@.subrange(i as int, e as int);
                    let t1 = b@.subrange(i as int, e + 1);
                    assert(t1 =~= t0.push(b@[e as int]));
                    if t1.contains(64u8) && !t0.contains(64u8) {
                        let k = choose|k: int| 0 <= k < t1.len() && t1[k] == 64u8;
                        if k < t0.len() {
                            assert(t0[k] == 64u8);
                        }
                    }
                    if t0.contains(64u8) {
                        let k = choose|k: int| 0 <= k < t0.len() && t0[k] == 64u8;
                        assert(t1[k] == 64u8);
                    }
                    if b@[e as int] == 64u8 {
                        assert(t1[t0.len() as int] == 64u8);
                    }
                }
                if b[e] == 64 {
                    at = true;
                }
                e += 1;
            }
            if at {
                out.push(to_vec(crate::bytes::slice_of(b, i, e)));
                assert(crate::bytes::views(out@) =~= before.push(b@.subrange(i as int, e as int)));
            }
            assert(before + refs_from(b@, i as int) =~= crate::bytes::views(out@) + refs_from(b@, e as int));
            i = e;
        }
    }
    assert(crate::bytes::views(out@) + Seq::<Seq<u8>>::empty() =~= crate::bytes::views(out@));
}

/// The message-ids a message refers to: the pieces of In-Reply-To and References between `<`,
/// `>` and white space that hold an `@`, In-Reply-To first.
pub fn msg_refs(m: &Message) -> (r: Vec<Vec<u8>>)
    ensures
        exists|p: crate::mime::ParsedMessage| {
            &&& crate::mime::is_parse_of(p, m.raw@)
            &&& crate::bytes::views(r@) == #[trigger] refs_of(super::response::hval(&p, "In-Reply-To")) + refs_of(
                super::response::hval(&p, "References"),
            )
        },
{
    let p = m.parsed_cached();
    let mut out: Vec<Vec<u8>> = Vec::new();
    assert(crate::bytes::views(out@) =~= Seq::<Seq<u8>>::empty());
    push_header_refs(&mut out, &p, "In-Reply-To");
    push_header_refs(&mut out, &p, "References");
    assert(crate::bytes::views(out@) =~= refs_of(super::response::hval(&p, "In-Reply-To")) + refs_of(
        super::response::hval(&p, "References"),
    ));
    out
}

fn push_header_refs(out: &mut Vec<Vec<u8>>, p: &crate::mime::ParsedMessage, name: &str)
    ensures
        crate::bytes::views(final(out)@) == crate::bytes::views(old(out)@) + refs_of(super::response::hval(p, name)),
{
    match p.header(name) {
        Some(v) => {
            proof {
                let k = crate::mime::header_index(crate::mime::message_headers(p), crate::bytes::lit(name), 0);
                assert(crate::mime::message_headers(p)[k].1 == crate::bytes::utf8(p.headers@[k].1@));
            }
            push_refs(out, v.as_bytes());
        },
        None => {
            assert(crate::bytes::views(old(out)@) + Seq::<Seq<u8>>::empty() =~= crate::bytes::views(old(out)@));
        },
    }
}

/// Whether index `a` sorts after index `b` by `(day, index)`.
pub open spec fn day_after_spec(days: Seq<(i64, i64, i64)>, a: usize, b: usize) -> bool {
    let o = day_order(days[a as int], days[b as int]);
    o > 0 || (o == 0 && a > b)
}

fn day_after(days: &Vec<(i64, i64, i64)>, a: usize, b: usize) -> (r: bool)
    requires
        a < days@.len(),
        b < days@.len(),
    ensures
        r == day_after_spec(days@, a, b),
{
    let o = order_day(days[a], days[b]);
    o > 0 || (o == 0 && a > b)
}

/// Order indices by `(day, index)` ascending, stably; the multiset is kept.
fn sort_by_day(ix: &mut Vec<usize>, days: &Vec<(i64, i64, i64)>)
    requires
        forall|k: int| 0 <= k < old(ix)@.len() ==> old(ix)@[k] < days@.len(),
    ensures
        final(ix)@.to_multiset() == old(ix)@.to_multiset(),
        forall|k: int| 0 <= k < final(ix)@.len() ==> final(ix)@[k] < days@.len(),
        forall|k: int| 0 <= k && k + 1 < final(ix)@.len() ==> !day_after_spec(days@, #[trigger] final(ix)@[k], final(ix)@[k + 1]),
{
    let n = ix.len();
    if n == 0 {
        return;
    }
    let mut i: usize = 1;
    while i < n
        invariant
            1 <= i <= n,
            n == ix@.len(),
            ix@.to_multiset() == old(ix)@.to_multiset(),
            forall|k: int| 0 <= k < ix@.len() ==> ix@[k] < days@.len(),
            forall|k: int| 0 <= k && k + 1 < i ==> !day_after_spec(days@, #[trigger] ix@[k], ix@[k + 1]),
        decreases n - i,
    {
        let mut j = i;
        while j > 0 && day_after(days, ix[j - 1], ix[j])
            invariant
                0 <= j <= i < n,
                n == ix@.len(),
                ix@.to_multiset() == old(ix)@.to_multiset(),
                forall|k: int| 0 <= k < ix@.len() ==> ix@[k] < days@.len(),
                forall|k: int| 0 <= k && k + 1 < j ==> !day_after_spec(days@, #[trigger] ix@[k], ix@[k + 1]),
                forall|k: int| j < k && k + 1 <= i ==> !day_after_spec(days@, #[trigger] ix@[k], ix@[k + 1]),
                j < i ==> !day_after_spec(days@, ix@[j as int], ix@[j + 1]),
                0 < j < i ==> !day_after_spec(days@, ix@[j - 1], ix@[j + 1]),
            decreases j,
        {
            let x = ix[j - 1];
            let y = ix[j];
            let ghost before = ix@;
            ix.set(j - 1, y);
            ix.set(j, x);
            proof {
                assert(ix@ =~= before.update(j - 1, y).update(j as int, x));
                lemma_swap(before, j - 1, j as int);
                assert(!day_after_spec(days@, y, x));
            }
            j -= 1;
        }
        i += 1;
    }
}

/// The root of `x` in a parent forest (at most `parent.len()` steps).
/// `x` after following `k` parent links.
pub open spec fn follow(parent: Seq<usize>, x: int, k: nat) -> int
    decreases k,
{
    if k == 0 || !(0 <= x < parent.len()) {
        x
    } else {
        follow(parent, parent[x] as int, (k - 1) as nat)
    }
}

fn find_root(parent: &Vec<usize>, x: usize) -> (r: usize)
    requires
        x < parent@.len(),
        forall|k: int| 0 <= k < parent@.len() ==> parent@[k] < parent@.len(),
    ensures
        r < parent@.len(),
        exists|k: nat| k <= parent@.len() && r == follow(parent@, x as int, k) && (parent@[r as int] == r || k
            == parent@.len()),
{
    let mut r = x;
    let mut steps: usize = 0;
    proof {
        lemma_follow_step(parent@, x as int, 0);
    }
    while parent[r] != r && steps < parent.len()
        invariant
            r < parent@.len(),
            steps <= parent@.len(),
            r == follow(parent@, x as int, steps as nat),
            forall|k: int| 0 <= k < parent@.len() ==> parent@[k] < parent@.len(),
            x < parent@.len(),
        decreases parent@.len() - steps,
    {
        proof {
            lemma_follow_step(parent@, x as int, steps as nat);
        }
        r = parent[r];
        steps += 1;
    }
    assert(r == follow(parent@, x as int, steps as nat));
    r
}

proof fn lemma_follow_step(parent: Seq<usize>, x: int, k: nat)
    requires
        0 <= x < parent.len(),
        forall|j: int| 0 <= j < parent.len() ==> parent[j] < parent.len(),
    ensures
        0 <= follow(parent, x, k) < parent.len(),
        follow(parent, x, k + 1) == parent[follow(parent, x, k)] as int,
    decreases k,
{
    assert(follow(parent, x, k + 1) == follow(parent, parent[x] as int, k));
    if k > 0 {
        lemma_follow_step(parent, parent[x] as int, (k - 1) as nat);
        assert(follow(parent, x, k) == follow(parent, parent[x] as int, (k - 1) as nat));
    } else {
        assert(follow(parent, parent[x] as int, 0) == parent[x] as int);
    }
}

/// Whether some group holds `x`.
pub open spec fn in_groups(gs: Seq<Vec<usize>>, x: usize) -> bool {
    exists|g: int| 0 <= g < gs.len() && (#[trigger] gs[g])@.contains(x)
}

proof fn lemma_grow(old: Seq<Vec<usize>>, new: Seq<Vec<usize>>, at: int, i: usize)
    requires
        new.len() == old.len(),
        0 <= at < old.len(),
        new[at]@ == old[at]@.push(i),
        forall|a: int| 0 <= a < old.len() && a != at ==> #[trigger] new[a] == old[a],
    ensures
        in_groups(new, i),
        forall|x: usize| in_groups(old, x) ==> in_groups(new, x),
{
    assert(new[at]@[old[at]@.len() as int] == i);
    assert forall|x: usize| in_groups(old, x) implies in_groups(new, x) by {
        let g = choose|g: int| 0 <= g < old.len() && (#[trigger] old[g])@.contains(x);
        if g == at {
            let j = choose|j: int| 0 <= j < old[g]@.len() && old[g]@[j] == x;
            assert(new[g]@[j] == x);
        } else {
            assert(new[g] == old[g]);
        }
    }
}

proof fn lemma_ins(old: Seq<Vec<usize>>, new: Seq<Vec<usize>>, at: int, i: usize)
    requires
        new.len() == old.len() + 1,
        0 <= at <= old.len(),
        new[at]@ == seq![i],
        forall|a: int| 0 <= a < at ==> #[trigger] new[a] == old[a],
        forall|a: int| at < a < new.len() ==> #[trigger] new[a] == old[a - 1],
    ensures
        in_groups(new, i),
        forall|x: usize| in_groups(old, x) ==> in_groups(new, x),
{
    assert(new[at]@[0] == i);
    assert forall|x: usize| in_groups(old, x) implies in_groups(new, x) by {
        let g = choose|g: int| 0 <= g < old.len() && (#[trigger] old[g])@.contains(x);
        if g < at {
            assert(new[g] == old[g]);
        } else {
            assert(new[g + 1] == old[g]);
        }
    }
}

proof fn lemma_insert_group(out: Seq<Vec<usize>>, at: int, g: Vec<usize>)
    requires
        0 <= at <= out.len(),
    ensures
        forall|x: usize| in_groups(out, x) ==> in_groups(out.insert(at, g), x),
        forall|x: usize| g@.contains(x) ==> in_groups(out.insert(at, g), x),
{
    let n = out.insert(at, g);
    assert(n[at] == g);
    assert forall|x: usize| in_groups(out, x) implies in_groups(n, x) by {
        let k = choose|k: int| 0 <= k < out.len() && (#[trigger] out[k])@.contains(x);
        if k < at {
            assert(n[k] == out[k]);
        } else {
            assert(n[k + 1] == out[k]);
        }
    }
}

proof fn lemma_remove_front(gs: Seq<Vec<usize>>)
    requires
        gs.len() > 0,
    ensures
        forall|x: usize| in_groups(gs, x) ==> in_groups(gs.remove(0), x) || gs[0]@.contains(x),
{
    let n = gs.remove(0);
    assert forall|x: usize| in_groups(gs, x) implies in_groups(n, x) || gs[0]@.contains(x) by {
        let k = choose|k: int| 0 <= k < gs.len() && (#[trigger] gs[k])@.contains(x);
        if k > 0 {
            assert(n[k - 1] == gs[k]);
        }
    }
}

proof fn lemma_same_members(a: Seq<usize>, b: Seq<usize>)
    requires
        a.to_multiset() == b.to_multiset(),
    ensures
        forall|x: usize| a.contains(x) <==> b.contains(x),
{
    a.to_multiset_ensures();
    b.to_multiset_ensures();
    assert forall|x: usize| a.contains(x) <==> b.contains(x) by {
        assert(a.contains(x) <==> a.to_multiset().count(x) > 0);
        assert(b.contains(x) <==> b.to_multiset().count(x) > 0);
    }
}

/// All members of all groups are below `n`.
pub open spec fn groups_below(gs: Seq<Vec<usize>>, n: usize) -> bool {
    forall|g: int, j: int| 0 <= g < gs.len() && 0 <= j < gs[g]@.len() ==> gs[g]@[j] < n
}

fn append_at(groups: &mut Vec<Vec<usize>>, at: usize, i: usize, n: usize)
    requires
        at < old(groups)@.len(),
        i < n,
        groups_below(old(groups)@, n),
    ensures
        final(groups)@.len() == old(groups)@.len(),
        groups_below(final(groups)@, n),
        final(groups)@[at as int]@ == old(groups)@[at as int]@.push(i),
        forall|a: int| 0 <= a < old(groups)@.len() && a != at ==> #[trigger] final(groups)@[a] == old(groups)@[a],
{
    let ghost before = groups@;
    let mut g = groups.remove(at);
    g.push(i);
    groups.insert(at, g);
    assert forall|a: int, j: int| 0 <= a < groups@.len() && 0 <= j < groups@[a]@.len() implies groups@[a]@[j] < n by {
        if a < at {
            assert(groups@[a] == before[a]);
        } else if a > at {
            assert(groups@[a] == before[a]);
        } else {
            if j < before[a]@.len() {
                assert(groups@[a]@[j] == before[a]@[j]);
            }
        }
    }
}

fn new_group_at(groups: &mut Vec<Vec<usize>>, at: usize, i: usize, n: usize)
    requires
        at <= old(groups)@.len(),
        i < n,
        groups_below(old(groups)@, n),
    ensures
        final(groups)@.len() == old(groups)@.len() + 1,
        groups_below(final(groups)@, n),
        final(groups)@[at as int]@ == seq![i],
        forall|a: int| 0 <= a < at ==> #[trigger] final(groups)@[a] == old(groups)@[a],
        forall|a: int| at < a < final(groups)@.len() ==> #[trigger] final(groups)@[a] == old(groups)@[a - 1],
{
    let ghost before = groups@;
    let mut g: Vec<usize> = Vec::new();
    g.push(i);
    groups.insert(at, g);
    assert forall|a: int, j: int| 0 <= a < groups@.len() && 0 <= j < groups@[a]@.len() implies groups@[a]@[j] < n by {
        if a < at {
            assert(groups@[a] == before[a]);
        } else if a > at {
            assert(groups@[a] == before[a - 1]);
        }
    }
}

fn add_to_group(groups: &mut Vec<Vec<usize>>, keys: &mut Vec<Vec<u8>>, pos: usize, key: Vec<u8>, i: usize, n: usize)
    requires
        pos <= old(keys)@.len(),
        old(keys)@.len() == old(groups)@.len(),
        i < n,
        groups_below(old(groups)@, n),
    ensures
        final(keys)@.len() == final(groups)@.len(),
        groups_below(final(groups)@, n),
        pos < old(keys)@.len() && old(keys)@[pos as int]@ == key@ ==> final(keys)@ == old(keys)@ && final(groups)@.len()
            == old(groups)@.len() && final(groups)@[pos as int]@ == old(groups)@[pos as int]@.push(i) && forall|a: int|
            0 <= a < old(groups)@.len() && a != pos ==> #[trigger] final(groups)@[a] == old(groups)@[a],
        !(pos < old(keys)@.len() && old(keys)@[pos as int]@ == key@) ==> final(keys)@ == old(keys)@.insert(pos as int, key)
            && final(groups)@.len() == old(groups)@.len() + 1 && final(groups)@[pos as int]@ == seq![i],
        in_groups(final(groups)@, i),
        forall|x: usize| in_groups(old(groups)@, x) ==> in_groups(final(groups)@, x),
{
    let ghost before = groups@;
    if pos < keys.len() && crate::bytes::bytes_eq(keys[pos].as_slice(), key.as_slice()) {
        append_at(groups, pos, i, n);
        proof {
            lemma_grow(before, groups@, pos as int, i);
        }
    } else {
        keys.insert(pos, key);
        new_group_at(groups, pos, i, n);
        proof {
            lemma_ins(before, groups@, pos as int, i);
        }
    }
}

/// Group the matched message indices into threads (RFC 5256 §3). ORDEREDSUBJECT groups by base
/// subject (groups in subject order); REFERENCES joins messages linked through Message-ID,
/// In-Reply-To and References (groups in the order of their roots). Each thread is then ordered
/// by sort date (then index), and the threads by their first message's date.
pub fn build_threads(mb: &Mailbox, matched: &[usize], algo: ThreadAlgorithm) -> (r: Vec<Vec<usize>>)
    requires
        forall|k: int| 0 <= k < matched@.len() ==> matched@[k] < mb.messages@.len(),
    ensures
        forall|g: int, k: int| 0 <= g < r@.len() && 0 <= k < r@[g]@.len() ==> r@[g]@[k] < mb.messages@.len(),
        forall|k: int| 0 <= k < matched@.len() ==> in_groups(r@, #[trigger] matched@[k]),
        forall|g: int| 0 <= g < r@.len() ==> (#[trigger] r@[g])@.len() > 0,
{
    let n = mb.messages.len();
    let mut groups: Vec<Vec<usize>> = Vec::new();
    match algo {
        ThreadAlgorithm::OrderedSubject => {
            let mut keys: Vec<Vec<u8>> = Vec::new();
            let mut k: usize = 0;
            while k < matched.len()
                invariant
                    k <= matched@.len(),
                    n == mb.messages@.len(),
                    forall|j: int| 0 <= j < matched@.len() ==> matched@[j] < n,
                    keys@.len() == groups@.len(),
                    forall|g: int, j: int| 0 <= g < groups@.len() && 0 <= j < groups@[g]@.len() ==> groups@[g]@[j] < n,
                    forall|j: int| 0 <= j < k ==> in_groups(groups@, #[trigger] matched@[j]),
                decreases matched@.len() - k,
            {
                let i = matched[k];
                let key = base_subject(&mb.messages[i]);
                let mut pos: usize = 0;
                while pos < keys.len() && lex_less(keys[pos].as_slice(), key.as_slice())
                    invariant
                        pos <= keys@.len(),
                    decreases keys@.len() - pos,
                {
                    pos += 1;
                }
                add_to_group(&mut groups, &mut keys, pos, key, i, n);
                k += 1;
            }
        },
        ThreadAlgorithm::References => {
            let m = matched.len();
            let mut ids: Vec<(Vec<u8>, usize)> = Vec::new();
            let mut k: usize = 0;
            while k < m
                invariant
                    k <= m,
                    m == matched@.len(),
                    n == mb.messages@.len(),
                    forall|j: int| 0 <= j < matched@.len() ==> matched@[j] < n,
                    forall|j: int| 0 <= j < ids@.len() ==> ids@[j].1 < m,
                decreases m - k,
            {
                if let Some(mid) = msg_id(&mb.messages[matched[k]]) {
                    let mut seen = false;
                    let mut j: usize = 0;
                    while j < ids.len()
                        invariant
                            j <= ids@.len(),
                        decreases ids@.len() - j,
                    {
                        if crate::bytes::bytes_eq(ids[j].0.as_slice(), mid.as_slice()) {
                            seen = true;
                        }
                        j += 1;
                    }
                    if !seen {
                        ids.push((mid, k));
                    }
                }
                k += 1;
            }
            let mut parent: Vec<usize> = Vec::new();
            let mut k: usize = 0;
            while k < m
                invariant
                    k <= m,
                    parent@.len() == k,
                    forall|j: int| 0 <= j < k ==> parent@[j] == j,
                decreases m - k,
            {
                parent.push(k);
                k += 1;
            }
            let mut pos: usize = 0;
            while pos < m
                invariant
                    pos <= m,
                    m == matched@.len(),
                    n == mb.messages@.len(),
                    forall|j: int| 0 <= j < matched@.len() ==> matched@[j] < n,
                    parent@.len() == m,
                    forall|j: int| 0 <= j < parent@.len() ==> parent@[j] < m,
                    forall|j: int| 0 <= j < ids@.len() ==> ids@[j].1 < m,
                decreases m - pos,
            {
                let refs = msg_refs(&mb.messages[matched[pos]]);
                let mut q: usize = 0;
                while q < refs.len()
                    invariant
                        q <= refs@.len(),
                        pos < m,
                        parent@.len() == m,
                        forall|j: int| 0 <= j < parent@.len() ==> parent@[j] < m,
                        forall|j: int| 0 <= j < ids@.len() ==> ids@[j].1 < m,
                    decreases refs@.len() - q,
                {
                    let mut other: Option<usize> = None;
                    let mut j: usize = 0;
                    while j < ids.len() && other.is_none()
                        invariant
                            j <= ids@.len(),
                            q < refs@.len(),
                            forall|t: int| 0 <= t < ids@.len() ==> ids@[t].1 < m,
                            other matches Some(o) ==> o < m,
                        decreases ids@.len() - j,
                    {
                        if crate::bytes::bytes_eq(ids[j].0.as_slice(), refs[q].as_slice()) {
                            other = Some(ids[j].1);
                        }
                        j += 1;
                    }
                    if let Some(o) = other {
                        let ra = find_root(&parent, pos);
                        let rb = find_root(&parent, o);
                        if ra != rb {
                            parent.set(ra, rb);
                        }
                    }
                    q += 1;
                }
                pos += 1;
            }
            let mut roots: Vec<usize> = Vec::new();
            let mut pos: usize = 0;
            while pos < m
                invariant
                    pos <= m,
                    m == matched@.len(),
                    n == mb.messages@.len(),
                    forall|j: int| 0 <= j < matched@.len() ==> matched@[j] < n,
                    parent@.len() == m,
                    forall|j: int| 0 <= j < parent@.len() ==> parent@[j] < m,
                    roots@.len() == groups@.len(),
                    forall|g: int, j: int| 0 <= g < groups@.len() && 0 <= j < groups@[g]@.len() ==> groups@[g]@[j] < n,
                    forall|j: int| 0 <= j < pos ==> in_groups(groups@, #[trigger] matched@[j]),
                decreases m - pos,
            {
                let root = find_root(&parent, pos);
                let mut at: usize = 0;
                while at < roots.len() && roots[at] < root
                    invariant
                        at <= roots@.len(),
                    decreases roots@.len() - at,
                {
                    at += 1;
                }
                let i = matched[pos];
                let ghost before = groups@;
                if at < roots.len() && roots[at] == root {
                    append_at(&mut groups, at, i, n);
                    proof {
                        lemma_grow(before, groups@, at as int, i);
                    }
                } else {
                    roots.insert(at, root);
                    new_group_at(&mut groups, at, i, n);
                    proof {
                        lemma_ins(before, groups@, at as int, i);
                    }
                }
                pos += 1;
            }
        },
    }
    assert(forall|j: int| 0 <= j < matched@.len() ==> in_groups(groups@, #[trigger] matched@[j]));
    let mut days: Vec<(i64, i64, i64)> = Vec::new();
    let mut i: usize = 0;
    while i < n
        invariant
            i <= n,
            n == mb.messages@.len(),
            days@.len() == i,
        decreases n - i,
    {
        days.push(sort_date(&mb.messages[i]));
        i += 1;
    }
    let mut out: Vec<Vec<usize>> = Vec::new();
    while groups.len() > 0
        invariant
            days@.len() == n,
            forall|g: int, j: int| 0 <= g < groups@.len() && 0 <= j < groups@[g]@.len() ==> groups@[g]@[j] < n,
            forall|g: int, j: int| 0 <= g < out@.len() && 0 <= j < out@[g]@.len() ==> out@[g]@[j] < n,
            forall|g: int| 0 <= g < out@.len() ==> out@[g]@.len() > 0,
            forall|j: int| 0 <= j < matched@.len() ==> in_groups(groups@, #[trigger] matched@[j]) || in_groups(out@, matched@[j]),
        decreases groups@.len(),
    {
        let ghost gs0 = groups@;
        let ghost out0 = out@;
        proof {
            lemma_remove_front(gs0);
        }
        let mut g = groups.remove(0);
        let ghost g0 = g@;
        proof {
            assert forall|g2: int, j: int| 0 <= g2 < groups@.len() && 0 <= j < groups@[g2]@.len() implies groups@[g2]@[j] < n by {
            }
        }
        sort_by_day(&mut g, &days);
        proof {
            lemma_same_members(g0, g@);
        }
        if g.len() > 0 {
            let first = days[g[0]];
            let mut at: usize = out.len();
            while at > 0 && order_day(days[out[at - 1][0]], first) > 0
                invariant
                    at <= out@.len(),
                    forall|g2: int| 0 <= g2 < out@.len() ==> out@[g2]@.len() > 0,
                    forall|g2: int, j: int| 0 <= g2 < out@.len() && 0 <= j < out@[g2]@.len() ==> out@[g2]@[j] < n,
                    days@.len() == n,
                decreases at,
            {
                at -= 1;
            }
            let ghost gv = g;
            out.insert(at, g);
            proof {
                lemma_insert_group(out0, at as int, gv);
                assert(out@ == out0.insert(at as int, gv));
                assert forall|g2: int, j: int| 0 <= g2 < out@.len() && 0 <= j < out@[g2]@.len() implies out@[g2]@[j] < n by {
                }
            }
        }
    }
    out
}


/// The lower-cased mailbox of the first address of a header (empty without one).
pub open spec fn first_mailbox_lower(m: Message, name: Seq<u8>) -> Seq<u8> {
    let l = raw_addrs(m.raw@, name);
    if l.len() == 0 {
        seq![]
    } else {
        match l[0].2 {
            Some(mb) => crate::bytes::utf8(crate::text::unicode_lower(mb)),
            None => seq![],
        }
    }
}

proof fn lemma_lex3_flip(x: Seq<u8>, y: Seq<u8>)
    ensures
        lex3(x, y) == flip(lex3(y, x)),
{
    crate::store::lemma_lex_asym(x, y);
    crate::store::lemma_lex_asym(y, x);
}

/// Every SORT key orders two messages the opposite way round when they are swapped.
pub proof fn law_criterion_antisymmetric(a: Message, b: Message, key: SortKey)
    ensures
        criterion_order(a, b, key) == flip(criterion_order(b, a, key)),
        -1 <= criterion_order(a, b, key) <= 1,
{
    match key {
        SortKey::Subject => lemma_lex3_flip(subject_key(a.raw@), subject_key(b.raw@)),
        SortKey::From => lemma_lex3_flip(sort_addr_key(a.raw@, lit("From"), false), sort_addr_key(b.raw@, lit("From"), false)),
        SortKey::To => lemma_lex3_flip(sort_addr_key(a.raw@, lit("To"), false), sort_addr_key(b.raw@, lit("To"), false)),
        SortKey::Cc => lemma_lex3_flip(sort_addr_key(a.raw@, lit("Cc"), false), sort_addr_key(b.raw@, lit("Cc"), false)),
        SortKey::DisplayFrom => lemma_lex3_flip(
            sort_addr_key(a.raw@, lit("From"), true),
            sort_addr_key(b.raw@, lit("From"), true),
        ),
        SortKey::DisplayTo => lemma_lex3_flip(sort_addr_key(a.raw@, lit("To"), true), sort_addr_key(b.raw@, lit("To"), true)),
        SortKey::Date => {
            let da = crate::search::sent_day(a);
            let db = crate::search::sent_day(b);
            assert(day_order((da.0 as i64, da.1 as i64, da.2 as i64), (db.0 as i64, db.1 as i64, db.2 as i64)) == flip(
                day_order((db.0 as i64, db.1 as i64, db.2 as i64), (da.0 as i64, da.1 as i64, da.2 as i64)),
            ));
        },
        _ => {},
    }
}

/// The address keys sort ascending by the first sender's (or recipient's) mailbox, compared
/// lower-cased and byte by byte: FROM puts `a` first exactly when its From mailbox comes first,
/// and likewise TO and CC; ARRIVAL and SIZE put the earlier and the smaller first.
#[verifier::spinoff_prover]
#[verifier::rlimit(40)]
pub proof fn law_sort_keys_ascending(a: Message, b: Message)
    ensures
        (criterion_order(a, b, SortKey::From) == -1) == crate::store::lex_lt(
            first_mailbox_lower(a, lit("From")),
            first_mailbox_lower(b, lit("From")),
        ),
        (criterion_order(a, b, SortKey::From) == 1) == crate::store::lex_lt(
            first_mailbox_lower(b, lit("From")),
            first_mailbox_lower(a, lit("From")),
        ),
        (criterion_order(a, b, SortKey::To) == -1) == crate::store::lex_lt(
            first_mailbox_lower(a, lit("To")),
            first_mailbox_lower(b, lit("To")),
        ),
        (criterion_order(a, b, SortKey::Cc) == -1) == crate::store::lex_lt(
            first_mailbox_lower(a, lit("Cc")),
            first_mailbox_lower(b, lit("Cc")),
        ),
        (criterion_order(a, b, SortKey::Arrival) == -1) == (a.internal_date < b.internal_date),
        (criterion_order(a, b, SortKey::Size) == -1) == (a.raw@.len() < b.raw@.len()),
{
    let fa = first_mailbox_lower(a, lit("From"));
    let fb = first_mailbox_lower(b, lit("From"));
    assert(sort_addr_key(a.raw@, lit("From"), false) == fa);
    assert(sort_addr_key(b.raw@, lit("From"), false) == fb);
    assert(sort_addr_key(a.raw@, lit("To"), false) == first_mailbox_lower(a, lit("To")));
    assert(sort_addr_key(b.raw@, lit("To"), false) == first_mailbox_lower(b, lit("To")));
    assert(sort_addr_key(a.raw@, lit("Cc"), false) == first_mailbox_lower(a, lit("Cc")));
    assert(sort_addr_key(b.raw@, lit("Cc"), false) == first_mailbox_lower(b, lit("Cc")));
    crate::store::lemma_lex_asym(fa, fb);
    crate::store::lemma_lex_asym(fb, fa);
}

/// A criteria list orders two messages the opposite way round when they are swapped; a
/// reversed criterion orders them opposite to the same criterion unreversed (REVERSE is the
/// only way down).
pub proof fn law_sort_order_antisymmetric(a: Message, b: Message, cs: Seq<SortCriterion>)
    ensures
        sort_order(a, b, cs) == flip(sort_order(b, a, cs)),
        -1 <= sort_order(a, b, cs) <= 1,
        cs.len() > 0 && criterion_order(a, b, cs[0].key) != 0 ==> sort_order(a, b, cs) == if cs[0].reverse {
            flip(criterion_order(a, b, cs[0].key))
        } else {
            criterion_order(a, b, cs[0].key)
        },
    decreases cs.len(),
{
    if cs.len() > 0 {
        law_criterion_antisymmetric(a, b, cs[0].key);
        law_sort_order_antisymmetric(a, b, cs.skip(1));
    }
}

} // verus!
