//! IMAP SEARCH keys (RFC 9051 §6.4.4) — the search-program parser shared by SEARCH, SORT and
//! THREAD. A search program is a tree of [`SearchKey`]s; keys in sequence are ANDed. Unsupported
//! keys fail **closed** at parse time (a `BAD` response) rather than silently matching nothing.
use vstd::prelude::*;
use crate::bytes::{is_kw, parse_u64, parse_usize, to_upper, to_vec};
use crate::imap::sequence::SequenceSet;
use crate::imap::token::{ParseError, Token};
use crate::store::{Flag, Message};
use crate::text::lossy_string;

verus! {

/// A SEARCH key (RFC 9051 §6.4.4).
#[derive(Debug, PartialEq, Eq)]
pub enum SearchKey {
    All,
    And(Vec<SearchKey>),
    Or(Box<SearchKey>, Box<SearchKey>),
    Not(Box<SearchKey>),
    Answered,
    Unanswered,
    Deleted,
    Undeleted,
    Draft,
    Undraft,
    Flagged,
    Unflagged,
    Seen,
    Unseen,
    Recent,
    New,
    Old,
    Keyword(Vec<u8>),
    Unkeyword(Vec<u8>),
    From(Vec<u8>),
    To(Vec<u8>),
    Cc(Vec<u8>),
    Bcc(Vec<u8>),
    Subject(Vec<u8>),
    Body(Vec<u8>),
    Text(Vec<u8>),
    Header(Vec<u8>, Vec<u8>),
    Before(Vec<u8>),
    On(Vec<u8>),
    Since(Vec<u8>),
    SentBefore(Vec<u8>),
    SentOn(Vec<u8>),
    SentSince(Vec<u8>),
    Larger(usize),
    Smaller(usize),
    Uid(SequenceSet),
    /// A bare sequence set of message sequence numbers.
    Sequence(SequenceSet),
    ModSeq(u64),
}

/// Maximum SEARCH-key nesting depth: deeper programs fail closed instead of exhausting the stack.
pub const MAX_SEARCH_DEPTH: usize = 100;

fn kw_eq(kw: &[u8], name: &str) -> (r: bool)
    ensures
        r == (kw@ == crate::bytes::lit(name)),
{
    crate::bytes::bytes_eq(kw, name.as_bytes())
}

/// The zero-argument key an upper-cased keyword names.
pub open spec fn simple_key_spec(kw: Seq<u8>) -> Option<SearchKey> {
    let l = |n: &str| kw == crate::bytes::lit(n);
    if l("ALL") {
        Some(SearchKey::All)
    } else if l("ANSWERED") {
        Some(SearchKey::Answered)
    } else if l("UNANSWERED") {
        Some(SearchKey::Unanswered)
    } else if l("DELETED") {
        Some(SearchKey::Deleted)
    } else if l("UNDELETED") {
        Some(SearchKey::Undeleted)
    } else if l("DRAFT") {
        Some(SearchKey::Draft)
    } else if l("UNDRAFT") {
        Some(SearchKey::Undraft)
    } else if l("FLAGGED") {
        Some(SearchKey::Flagged)
    } else if l("UNFLAGGED") {
        Some(SearchKey::Unflagged)
    } else if l("SEEN") {
        Some(SearchKey::Seen)
    } else if l("UNSEEN") {
        Some(SearchKey::Unseen)
    } else if l("RECENT") {
        Some(SearchKey::Recent)
    } else if l("NEW") {
        Some(SearchKey::New)
    } else if l("OLD") {
        Some(SearchKey::Old)
    } else {
        None
    }
}

/// The zero-argument key named by the upper-cased keyword `kw`.
fn simple_key(kw: &[u8]) -> (r: Option<SearchKey>)
    ensures
        r == simple_key_spec(kw@),
{
    if kw_eq(kw, "ALL") {
        Some(SearchKey::All)
    } else if kw_eq(kw, "ANSWERED") {
        Some(SearchKey::Answered)
    } else if kw_eq(kw, "UNANSWERED") {
        Some(SearchKey::Unanswered)
    } else if kw_eq(kw, "DELETED") {
        Some(SearchKey::Deleted)
    } else if kw_eq(kw, "UNDELETED") {
        Some(SearchKey::Undeleted)
    } else if kw_eq(kw, "DRAFT") {
        Some(SearchKey::Draft)
    } else if kw_eq(kw, "UNDRAFT") {
        Some(SearchKey::Undraft)
    } else if kw_eq(kw, "FLAGGED") {
        Some(SearchKey::Flagged)
    } else if kw_eq(kw, "UNFLAGGED") {
        Some(SearchKey::Unflagged)
    } else if kw_eq(kw, "SEEN") {
        Some(SearchKey::Seen)
    } else if kw_eq(kw, "UNSEEN") {
        Some(SearchKey::Unseen)
    } else if kw_eq(kw, "RECENT") {
        Some(SearchKey::Recent)
    } else if kw_eq(kw, "NEW") {
        Some(SearchKey::New)
    } else if kw_eq(kw, "OLD") {
        Some(SearchKey::Old)
    } else {
        None
    }
}

/// The string argument at `i`.
fn arg_str(toks: &[Token], i: usize) -> (r: Result<Vec<u8>, ParseError>)
    ensures
        match r {
            Ok(v) => i < toks@.len() && crate::imap::token::tok_str(toks@[i as int]@) == Some(v@),
            Err(e) => e is Syntax && (i >= toks@.len() || crate::imap::token::tok_str(toks@[i as int]@) is None),
        },
{
    if i >= toks.len() {
        return Err(ParseError::Syntax("missing search argument"));
    }
    match toks[i].as_str() {
        Some(s) => Ok(to_vec(s)),
        None => Err(ParseError::Syntax("expected search argument")),
    }
}

/// Index of the parenthesis closing the one at `toks[0]`.
fn close_paren(toks: &[Token]) -> (r: Result<usize, ParseError>)
    requires
        toks@.len() > 0,
        toks@[0] is LParen,
    ensures
        r matches Ok(k) ==> 0 < k < toks@.len() && toks@[k as int] is RParen,
        match crate::imap::parser::paren_close(crate::imap::token::toks(toks@), 0) {
            Some(k) => 0 <= k < toks@.len() && r == Ok::<usize, ParseError>(k as usize),
            None => r is Err,
        },
        r matches Err(e) ==> e is Syntax,
{
    let ghost t = crate::imap::token::toks(toks@);
    let mut depth: usize = 0;
    let mut i: usize = 0;
    while i < toks.len()
        invariant
            i <= toks@.len(),
            toks@.len() > 0,
            toks@[0] is LParen,
            t == crate::imap::token::toks(toks@),
            i > 0 ==> depth >= 1,
            depth <= i,
            crate::imap::parser::close_from(t, i as int, depth as nat, crate::imap::token::Tok::LParen, crate::imap::token::Tok::RParen)
                == crate::imap::parser::paren_close(t, 0),
        decreases toks@.len() - i,
    {
        assert(t[i as int] == toks@[i as int]@);
        match &toks[i] {
            Token::LParen => {
                depth += 1;
            },
            Token::RParen => {
                if depth == 1 {
                    return Ok(i);
                }
                depth -= 1;
            },
            _ => {},
        }
        i += 1;
    }
    Err(ParseError::Syntax("unbalanced parens in search"))
}

/// Whether a keyword (compared ignoring ASCII case) takes one string argument.
pub open spec fn one_str_kw_spec(kw: Seq<u8>) -> bool {
    let k = |n: &str| crate::bytes::eq_ci_spec(kw, crate::bytes::lit(n));
    k("KEYWORD") || k("UNKEYWORD") || k("FROM") || k("TO") || k("CC") || k("BCC") || k("SUBJECT") || k("BODY")
        || k("TEXT") || k("BEFORE") || k("ON") || k("SINCE") || k("SENTBEFORE") || k("SENTON") || k(
        "SENTSINCE",
    )
}

/// The one-string-argument key a keyword names, carrying `arg` (the first of the family that
/// matches, ignoring ASCII case).
pub open spec fn one_str_spec(kw: Seq<u8>, arg: Vec<u8>) -> Option<SearchKey> {
    let k = |n: &str| crate::bytes::eq_ci_spec(kw, crate::bytes::lit(n));
    if k("KEYWORD") {
        Some(SearchKey::Keyword(arg))
    } else if k("UNKEYWORD") {
        Some(SearchKey::Unkeyword(arg))
    } else if k("FROM") {
        Some(SearchKey::From(arg))
    } else if k("TO") {
        Some(SearchKey::To(arg))
    } else if k("CC") {
        Some(SearchKey::Cc(arg))
    } else if k("BCC") {
        Some(SearchKey::Bcc(arg))
    } else if k("SUBJECT") {
        Some(SearchKey::Subject(arg))
    } else if k("BODY") {
        Some(SearchKey::Body(arg))
    } else if k("TEXT") {
        Some(SearchKey::Text(arg))
    } else if k("BEFORE") {
        Some(SearchKey::Before(arg))
    } else if k("ON") {
        Some(SearchKey::On(arg))
    } else if k("SINCE") {
        Some(SearchKey::Since(arg))
    } else if k("SENTBEFORE") {
        Some(SearchKey::SentBefore(arg))
    } else if k("SENTON") {
        Some(SearchKey::SentOn(arg))
    } else if k("SENTSINCE") {
        Some(SearchKey::SentSince(arg))
    } else {
        None
    }
}

/// A string-argument key.
fn one_str_key(kw: &[u8], arg: Vec<u8>) -> (r: Option<SearchKey>)
    ensures
        r == one_str_spec(kw@, arg),
        r is Some <==> one_str_kw_spec(kw@),
{
    if is_kw(kw, "KEYWORD") {
        Some(SearchKey::Keyword(arg))
    } else if is_kw(kw, "UNKEYWORD") {
        Some(SearchKey::Unkeyword(arg))
    } else if is_kw(kw, "FROM") {
        Some(SearchKey::From(arg))
    } else if is_kw(kw, "TO") {
        Some(SearchKey::To(arg))
    } else if is_kw(kw, "CC") {
        Some(SearchKey::Cc(arg))
    } else if is_kw(kw, "BCC") {
        Some(SearchKey::Bcc(arg))
    } else if is_kw(kw, "SUBJECT") {
        Some(SearchKey::Subject(arg))
    } else if is_kw(kw, "BODY") {
        Some(SearchKey::Body(arg))
    } else if is_kw(kw, "TEXT") {
        Some(SearchKey::Text(arg))
    } else if is_kw(kw, "BEFORE") {
        Some(SearchKey::Before(arg))
    } else if is_kw(kw, "ON") {
        Some(SearchKey::On(arg))
    } else if is_kw(kw, "SINCE") {
        Some(SearchKey::Since(arg))
    } else if is_kw(kw, "SENTBEFORE") {
        Some(SearchKey::SentBefore(arg))
    } else if is_kw(kw, "SENTON") {
        Some(SearchKey::SentOn(arg))
    } else if is_kw(kw, "SENTSINCE") {
        Some(SearchKey::SentSince(arg))
    } else {
        None
    }
}

fn is_one_str_kw(kw: &[u8]) -> (r: bool)
    ensures
        r == one_str_kw_spec(kw@),
{
    is_kw(kw, "KEYWORD") || is_kw(kw, "UNKEYWORD") || is_kw(kw, "FROM") || is_kw(kw, "TO")
        || is_kw(kw, "CC") || is_kw(kw, "BCC") || is_kw(kw, "SUBJECT") || is_kw(kw, "BODY")
        || is_kw(kw, "TEXT") || is_kw(kw, "BEFORE") || is_kw(kw, "ON") || is_kw(kw, "SINCE")
        || is_kw(kw, "SENTBEFORE") || is_kw(kw, "SENTON") || is_kw(kw, "SENTSINCE")
}

/// The upper-cased keyword at the front of a token list.
pub open spec fn head_kw(t: Seq<crate::imap::token::Tok>) -> Option<Seq<u8>> {
    if t.len() > 0 {
        match crate::imap::token::tok_str(t[0]) {
            Some(h) => Some(crate::bytes::upper_seq(h)),
            None => None,
        }
    } else {
        None
    }
}

/// The string argument a one-string key carries.
pub open spec fn key_arg(k: SearchKey) -> Option<Vec<u8>> {
    match k {
        SearchKey::Keyword(v) => Some(v),
        SearchKey::Unkeyword(v) => Some(v),
        SearchKey::From(v) => Some(v),
        SearchKey::To(v) => Some(v),
        SearchKey::Cc(v) => Some(v),
        SearchKey::Bcc(v) => Some(v),
        SearchKey::Subject(v) => Some(v),
        SearchKey::Body(v) => Some(v),
        SearchKey::Text(v) => Some(v),
        SearchKey::Before(v) => Some(v),
        SearchKey::On(v) => Some(v),
        SearchKey::Since(v) => Some(v),
        SearchKey::SentBefore(v) => Some(v),
        SearchKey::SentOn(v) => Some(v),
        SearchKey::SentSince(v) => Some(v),
        _ => None,
    }
}

/// The number argument of LARGER, SMALLER and MODSEQ.
pub open spec fn num_arg(t: Seq<crate::imap::token::Tok>, max: nat) -> Option<nat> {
    match crate::imap::parser::str_at(t, 1) {
        Some(a) => crate::bytes::parse_dec_spec(a, max),
        None => None,
    }
}

/// What the key at the front of `t` parses to, for every key but a parenthesised group, NOT and
/// OR (whose parts are parsed recursively): the zero-argument keys take one token, the string
/// keys two, HEADER three, LARGER, SMALLER, MODSEQ and UID a number or set; any other atom must
/// be a sequence set. A missing or malformed argument fails.
#[verifier::opaque]
pub open spec fn one_spec(t: Seq<crate::imap::token::Tok>, r: Result<(SearchKey, usize), ParseError>) -> bool {
    match head_kw(t) {
        None => if t.len() > 0 && t[0] == crate::imap::token::Tok::LParen {
            match crate::imap::parser::paren_close(t, 0) {
                Some(k) => r matches Ok((_, n)) ==> n == k + 1,
                None => r is Err,
            }
        } else {
            r is Err
        },
        Some(u) => {
            let ci = |n: &str| crate::bytes::eq_ci_spec(u, crate::bytes::lit(n));
            if simple_key_spec(u) is Some {
                r == Ok::<(SearchKey, usize), ParseError>((simple_key_spec(u)->0, 1))
            } else if one_str_kw_spec(u) {
                match crate::imap::parser::str_at(t, 1) {
                    Some(a) => r matches Ok((k, n)) && n == 2 && (key_arg(k) matches Some(v) && v@ == a
                        && one_str_spec(u, v) == Some(k)),
                    None => r is Err,
                }
            } else if ci("HEADER") {
                match (crate::imap::parser::str_at(t, 1), crate::imap::parser::str_at(t, 2)) {
                    (Some(f), Some(v)) => r matches Ok((SearchKey::Header(fv, vv), n)) && n == 3 && fv@ == f && vv@ == v,
                    _ => r is Err,
                }
            } else if ci("LARGER") || ci("SMALLER") {
                match num_arg(t, usize::MAX as nat) {
                    Some(x) => r == Ok::<(SearchKey, usize), ParseError>(
                        (if ci("LARGER") { SearchKey::Larger(x as usize) } else { SearchKey::Smaller(x as usize) }, 2),
                    ),
                    None => r is Err,
                }
            } else if ci("MODSEQ") {
                match num_arg(t, u64::MAX as nat) {
                    Some(x) => r == Ok::<(SearchKey, usize), ParseError>((SearchKey::ModSeq(x as u64), 2)),
                    None => r is Err,
                }
            } else if ci("UID") {
                match crate::imap::parser::str_at(t, 1) {
                    Some(a) => match crate::imap::sequence::parse_spec(a) {
                        Some(sv) => r matches Ok((SearchKey::Uid(set), n)) && n == 2 && set@ == sv,
                        None => r is Err,
                    },
                    None => r is Err,
                }
            } else if ci("NOT") {
                r matches Ok((k, _)) ==> k is Not
            } else if ci("OR") {
                r matches Ok((k, _)) ==> k is Or
            } else {
                match crate::imap::sequence::parse_spec(u) {
                    Some(sv) => r matches Ok((SearchKey::Sequence(set), n)) && n == 1 && set@ == sv,
                    None => r is Err,
                }
            }
        },
    }
}

/// Whether an upper-cased keyword names none of the keys [`one_spec`] settles by itself.
pub open spec fn plain_excluded(u: Seq<u8>) -> bool {
    simple_key_spec(u) is None && !one_str_kw_spec(u) && !eq_ci_name(u, "HEADER") && !eq_ci_name(u, "LARGER")
        && !eq_ci_name(u, "SMALLER") && !eq_ci_name(u, "MODSEQ") && !eq_ci_name(u, "UID")
}

/// NOT: one key, one level deeper.
pub open spec fn not_rel(t: Seq<crate::imap::token::Tok>, depth: nat, r: Result<(SearchKey, usize), ParseError>) -> bool
    decreases t.len(), 0int,
{
    if t.len() == 0 {
        false
    } else {
        match r {
            Ok((key, n)) => key matches SearchKey::Not(b) && n >= 1 && key_rel(t.skip(1), depth + 1, Ok((*b, (n - 1) as usize))),
            Err(e) => key_rel(t.skip(1), depth + 1, Err(e)),
        }
    }
}

/// OR: two keys, one level deeper, the second after the first.
pub open spec fn or_rel(t: Seq<crate::imap::token::Tok>, depth: nat, r: Result<(SearchKey, usize), ParseError>) -> bool
    decreases t.len(), 0int,
{
    if t.len() == 0 {
        false
    } else {
        match r {
            Ok((key, n)) => key matches SearchKey::Or(a, b) && exists|n1: usize|
                #[trigger] pos_mark(n1) && 1 <= n1 && 1 + n1 <= n && n1 < t.len() && key_rel(t.skip(1), depth + 1, Ok((*a, n1))) && key_rel(
                    t.skip(1 + n1),
                    depth + 1,
                    Ok((*b, (n - 1 - n1) as usize)),
                ),
            Err(e) => key_rel(t.skip(1), depth + 1, Err(e)) || exists|a: SearchKey, n1: usize|
                #[trigger] key_mark(a) && #[trigger] pos_mark(n1) && 1 <= n1 && n1 < t.len() && key_rel(t.skip(1), depth + 1, Ok((a, n1))) && key_rel(
                    t.skip(1 + n1),
                    depth + 1,
                    Err(e),
                ),
        }
    }
}

/// A parenthesised group: a whole program one level deeper, ending at its `)`.
pub open spec fn group_rel(t: Seq<crate::imap::token::Tok>, depth: nat, r: Result<(SearchKey, usize), ParseError>) -> bool
    decreases t.len(), 0int,
{
    match crate::imap::parser::paren_close(t, 0) {
        None => r is Err,
        Some(k) => 0 < k < t.len() && match r {
            Ok((key, n)) => n == k + 1 && prog_rel(t.subrange(1, k), depth + 1, Ok(key)),
            Err(e) => prog_rel(t.subrange(1, k), depth + 1, Err(e)),
        },
    }
}

/// What the key at the front of `t` parses to at nesting `depth`, recursively: a parenthesised
/// group is a whole program one level deeper, NOT takes one key and OR two keys one level
/// deeper, the other keys are as [`one_spec`] says; beyond [`MAX_SEARCH_DEPTH`] every key fails.
/// Every failure is a syntax error.
pub open spec fn key_rel(t: Seq<crate::imap::token::Tok>, depth: nat, r: Result<(SearchKey, usize), ParseError>) -> bool
    decreases t.len(), 1int,
{
    &&& (r matches Err(e) ==> e is Syntax)
    &&& if depth > MAX_SEARCH_DEPTH || t.len() == 0 {
        r is Err
    } else if t[0] == crate::imap::token::Tok::LParen {
        group_rel(t, depth, r)
    } else {
        &&& one_spec(t, r)
        &&& match head_kw(t) {
            Some(u) => plain_excluded(u) ==> (eq_ci_name(u, "NOT") ==> not_rel(t, depth, r)) && (!eq_ci_name(u, "NOT")
                && eq_ci_name(u, "OR") ==> or_rel(t, depth, r)),
            None => true,
        }
    }
}

/// Whether an upper-cased keyword is `w` (ignoring ASCII case).
pub open spec fn eq_ci_name(u: Seq<u8>, w: &str) -> bool {
    crate::bytes::eq_ci_spec(u, crate::bytes::lit(w))
}

/// The keys of a program, in order: `ks` is what `t` reads as, key after key.
pub open spec fn keys_rel(t: Seq<crate::imap::token::Tok>, depth: nat, ks: Seq<SearchKey>) -> bool
    decreases t.len(), 3int,
{
    if t.len() == 0 {
        ks.len() == 0
    } else {
        ks.len() > 0 && keys_step(t, depth, ks)
    }
}

/// The first key of `ks` is read at the front of `t`, the rest after it.
pub open spec fn keys_step(t: Seq<crate::imap::token::Tok>, depth: nat, ks: Seq<SearchKey>) -> bool
    decreases t.len(), 2int,
{
    ks.len() > 0 && exists|n: usize| #[trigger] pos_mark(n) && 0 < n <= t.len() && key_rel(t, depth, Ok((ks[0], n))) && keys_rel(
        t.skip(n as int),
        depth,
        ks.drop_first(),
    )
}

/// The key at the front of `t` parses and a later key fails.
pub open spec fn fails_later(t: Seq<crate::imap::token::Tok>, depth: nat) -> bool
    decreases t.len(), 2int,
{
    exists|k: SearchKey, n: usize| #[trigger] key_mark(k) && #[trigger] pos_mark(n) && 0 < n <= t.len() && key_rel(t, depth, Ok((k, n))) && keys_fail(
        t.skip(n as int),
        depth,
    )
}

/// A trigger for a token count.
pub open spec fn pos_mark(n: usize) -> bool {
    true
}

/// A trigger for a parsed key.
pub open spec fn key_mark(k: SearchKey) -> bool {
    true
}

/// A trigger for a list of parsed keys.
pub open spec fn keys_mark(ks: Seq<SearchKey>) -> bool {
    true
}

/// A trigger for the error of a failed key.
pub open spec fn err_mark(e: ParseError) -> bool {
    true
}

/// Whether the key at the front of `t` fails to parse.
pub open spec fn fails_here(t: Seq<crate::imap::token::Tok>, depth: nat) -> bool
    decreases t.len(), 2int,
{
    exists|e: ParseError| #[trigger] err_mark(e) && key_rel(t, depth, Err(e))
}

/// Whether some key of the program `t` fails to parse (the keys before it parsing).
pub open spec fn keys_fail(t: Seq<crate::imap::token::Tok>, depth: nat) -> bool
    decreases t.len(), 3int,
{
    t.len() > 0 && (fails_here(t, depth) || fails_later(t, depth))
}

/// What a search program parses to at nesting `depth`: beyond [`MAX_SEARCH_DEPTH`] a syntax
/// error; an empty program is ALL; otherwise its keys, one key as itself and several ANDed, or a
/// syntax error when a key fails.
pub open spec fn prog_rel(t: Seq<crate::imap::token::Tok>, depth: nat, r: Result<SearchKey, ParseError>) -> bool
    decreases t.len(), 4int,
{
    if depth > MAX_SEARCH_DEPTH {
        r matches Err(e) && e is Syntax
    } else if t.len() == 0 {
        r == Ok::<SearchKey, ParseError>(SearchKey::All)
    } else {
        match r {
            Ok(k) => exists|ks: Seq<SearchKey>| #[trigger] keys_mark(ks) && keys_rel(t, depth, ks) && if ks.len() == 1 {
                k == ks[0]
            } else {
                k matches SearchKey::And(v) && v@ == ks
            },
            Err(e) => e is Syntax && keys_fail(t, depth),
        }
    }
}

proof fn lemma_keys_cons(t: Seq<crate::imap::token::Tok>, depth: nat, key: SearchKey, used: usize, more: Seq<SearchKey>)
    requires
        0 < used <= t.len(),
        key_rel(t, depth, Ok((key, used))),
        keys_rel(t.skip(used as int), depth, more),
    ensures
        keys_rel(t, depth, seq![key] + more),
{
    reveal_with_fuel(keys_rel, 3);
    reveal_with_fuel(keys_step, 3);
    let ks = seq![key] + more;
    assert(ks.drop_first() =~= more);
    assert(ks[0] == key);
    assert(key_rel(t, depth, Ok((ks[0], used))));
    assert(keys_rel(t.skip(used as int), depth, ks.drop_first()));
    assert(pos_mark(used));
    assert(keys_step(t, depth, ks));
}

proof fn lemma_fail_cons(t: Seq<crate::imap::token::Tok>, depth: nat, key: SearchKey, used: usize)
    requires
        0 < used <= t.len(),
        key_rel(t, depth, Ok((key, used))),
        keys_fail(t.skip(used as int), depth),
    ensures
        keys_fail(t, depth),
{
    reveal_with_fuel(keys_fail, 3);
    reveal_with_fuel(fails_later, 3);
    assert(key_rel(t, depth, Ok((key, used))) && keys_fail(t.skip(used as int), depth));
    assert(pos_mark(used) && key_mark(key));
    assert(fails_later(t, depth));
}

proof fn lemma_fail_here(t: Seq<crate::imap::token::Tok>, depth: nat, e: ParseError)
    requires
        t.len() > 0,
        key_rel(t, depth, Err(e)),
    ensures
        keys_fail(t, depth),
        e is Syntax,
{
    reveal_with_fuel(keys_fail, 3);
    reveal_with_fuel(fails_here, 3);
    assert(key_rel(t, depth, Err(e)));
    assert(err_mark(e));
    assert(fails_here(t, depth));
}

proof fn lemma_err_syntax(t: Seq<crate::imap::token::Tok>, depth: nat, e: ParseError)
    requires
        key_rel(t, depth, Err(e)),
    ensures
        e is Syntax,
{
}

proof fn lemma_keys_end(t: Seq<crate::imap::token::Tok>, depth: nat)
    requires
        t.len() == 0,
    ensures
        keys_rel(t, depth, Seq::<SearchKey>::empty()),
{
    reveal_with_fuel(keys_rel, 3);
}

proof fn lemma_prog_ok(t: Seq<crate::imap::token::Tok>, depth: nat, ks: Seq<SearchKey>, k: SearchKey)
    requires
        depth <= MAX_SEARCH_DEPTH,
        t.len() > 0,
        keys_rel(t, depth, ks),
        ks.len() == 1 ==> k == ks[0],
        ks.len() != 1 ==> (k matches SearchKey::And(v) && v@ == ks),
    ensures
        prog_rel(t, depth, Ok(k)),
{
    reveal_with_fuel(prog_rel, 3);
    assert(keys_rel(t, depth, ks));
    assert(keys_mark(ks));
}

proof fn lemma_prog_err(t: Seq<crate::imap::token::Tok>, depth: nat, e: ParseError)
    requires
        depth <= MAX_SEARCH_DEPTH,
        t.len() > 0,
        e is Syntax,
        keys_fail(t, depth),
    ensures
        prog_rel(t, depth, Err(e)),
{
    assert(prog_rel(t, depth, Err(e)));
}

/// The keys [`one_spec`] settles by itself: `None` when `kw` names none of them.
#[verifier::spinoff_prover]
#[verifier::rlimit(100)]
fn parse_plain(toks: &[Token], kw: &[u8]) -> (r: Option<Result<(SearchKey, usize), ParseError>>)
    requires
        toks@.len() > 0,
        crate::imap::token::toks(toks@)[0] != crate::imap::token::Tok::LParen,
        head_kw(crate::imap::token::toks(toks@)) == Some(kw@),
    ensures
        match r {
            Some(x) => one_spec(crate::imap::token::toks(toks@), x) && (x matches Err(e) ==> e is Syntax) && (
            x matches Ok((_, n)) ==> 0 < n <= toks@.len()) && !plain_excluded(kw@),
            None => plain_excluded(kw@),
        },
{
    reveal(one_spec);
    let ghost t = crate::imap::token::toks(toks@);
    if let Some(k) = simple_key(kw) {
        return Some(Ok((k, 1)));
    }
    if is_one_str_kw(kw) {
        let arg = match arg_str(toks, 1) {
            Ok(a) => a,
            Err(e) => return Some(Err(e)),
        };
        return Some(
            match one_str_key(kw, arg) {
                Some(k) => Ok((k, 2)),
                None => Err(ParseError::Syntax("unknown search key")),
            },
        );
    }
    if is_kw(kw, "HEADER") {
        let field = match arg_str(toks, 1) {
            Ok(a) => a,
            Err(e) => return Some(Err(e)),
        };
        let val = match arg_str(toks, 2) {
            Ok(a) => a,
            Err(e) => return Some(Err(e)),
        };
        return Some(Ok((SearchKey::Header(field, val), 3)));
    }
    if is_kw(kw, "LARGER") || is_kw(kw, "SMALLER") {
        let a = match arg_str(toks, 1) {
            Ok(a) => a,
            Err(e) => return Some(Err(e)),
        };
        let n = match parse_usize(a.as_slice()) {
            Some(n) => n,
            None => return Some(Err(ParseError::Syntax("size must be a number"))),
        };
        return Some(Ok((if is_kw(kw, "LARGER") { SearchKey::Larger(n) } else { SearchKey::Smaller(n) }, 2)));
    }
    if is_kw(kw, "MODSEQ") {
        let a = match arg_str(toks, 1) {
            Ok(a) => a,
            Err(e) => return Some(Err(e)),
        };
        let n = match parse_u64(a.as_slice()) {
            Some(n) => n,
            None => return Some(Err(ParseError::Syntax("MODSEQ number"))),
        };
        return Some(Ok((SearchKey::ModSeq(n), 2)));
    }
    if is_kw(kw, "UID") {
        let a = match arg_str(toks, 1) {
            Ok(a) => a,
            Err(e) => return Some(Err(e)),
        };
        let set = match SequenceSet::parse_bytes(a.as_slice()) {
            Some(s) => s,
            None => return Some(Err(ParseError::Syntax("UID set"))),
        };
        return Some(Ok((SearchKey::Uid(set), 2)));
    }
    None
}

/// A parenthesised sub-program at the front of `toks`.
fn parse_group(toks: &[Token], depth: usize) -> (r: Result<(SearchKey, usize), ParseError>)
    requires
        toks@.len() > 0,
        toks@[0] is LParen,
        depth <= MAX_SEARCH_DEPTH,
        depth + toks@.len() <= usize::MAX,
    ensures
        r matches Ok((_, n)) ==> 0 < n <= toks@.len(),
        group_rel(crate::imap::token::toks(toks@), depth as nat, r),
        r matches Err(e) ==> e is Syntax,
    decreases toks@.len(), 1int,
{
    let ghost t = crate::imap::token::toks(toks@);
    let end = close_paren(toks)?;
    let inner_toks = crate::imap::token::toks_range(toks, 1, end);
    assert(crate::imap::token::toks(inner_toks@) =~= t.subrange(1, end as int));
    let inner = parse_search_key_depth(inner_toks, depth + 1);
    match inner {
        Ok(k) => Ok((k, end + 1)),
        Err(e) => {
            assert(e is Syntax);
            Err(e)
        },
    }
}

/// NOT key.
fn parse_not(toks: &[Token], depth: usize) -> (r: Result<(SearchKey, usize), ParseError>)
    requires
        toks@.len() > 0,
        depth + toks@.len() <= usize::MAX,
    ensures
        r matches Ok((_, n)) ==> 0 < n <= toks@.len(),
        not_rel(crate::imap::token::toks(toks@), depth as nat, r),
        r matches Err(e) ==> e is Syntax,
    decreases toks@.len(), 1int,
{
    let ghost t = crate::imap::token::toks(toks@);
    let rest = crate::imap::token::toks_range(toks, 1, toks.len());
    assert(crate::imap::token::toks(rest@) =~= t.skip(1));
    let (inner, used) = match parse_one(rest, depth + 1) {
        Ok(x) => x,
        Err(e) => {
            proof {
                lemma_err_syntax(t.skip(1), (depth + 1) as nat, e);
            }
            return Err(e);
        },
    };
    let r = Ok((SearchKey::Not(Box::new(inner)), 1 + used));
    assert(((1 + used - 1) as usize) == used);
    r
}

/// OR key key.
#[verifier::spinoff_prover]
#[verifier::rlimit(100)]
fn parse_or(toks: &[Token], depth: usize) -> (r: Result<(SearchKey, usize), ParseError>)
    requires
        toks@.len() > 0,
        depth + toks@.len() <= usize::MAX,
    ensures
        r matches Ok((_, n)) ==> 0 < n <= toks@.len(),
        or_rel(crate::imap::token::toks(toks@), depth as nat, r),
        r matches Err(e) ==> e is Syntax,
    decreases toks@.len(), 1int,
{
    let ghost t = crate::imap::token::toks(toks@);
    let rest = crate::imap::token::toks_range(toks, 1, toks.len());
    assert(crate::imap::token::toks(rest@) =~= t.skip(1));
    let (a, used1) = match parse_one(rest, depth + 1) {
        Ok(x) => x,
        Err(e) => {
            proof {
                lemma_err_syntax(t.skip(1), (depth + 1) as nat, e);
            }
            return Err(e);
        },
    };
    let rest2 = crate::imap::token::toks_range(toks, 1 + used1, toks.len());
    assert(crate::imap::token::toks(rest2@) =~= t.skip(1 + used1));
    match parse_one(rest2, depth + 1) {
        Ok((b, used2)) => {
            let n = 1 + used1 + used2;
            assert(((n - 1 - used1) as usize) == used2);
            assert(key_rel(t.skip(1), (depth + 1) as nat, Ok((a, used1))));
            assert(pos_mark(used1));
            Ok((SearchKey::Or(Box::new(a), Box::new(b)), n))
        },
        Err(e) => {
            assert(key_rel(t.skip(1), (depth + 1) as nat, Ok((a, used1))));
            assert(pos_mark(used1) && key_mark(a));
            proof {
                lemma_err_syntax(t.skip(1 + used1), (depth + 1) as nat, e);
            }
            Err(e)
        },
    }
}

/// Parse one key at the front of `toks`: the key and the number of tokens it used.
fn parse_one(toks: &[Token], depth: usize) -> (r: Result<(SearchKey, usize), ParseError>)
    requires
        depth + toks@.len() <= usize::MAX,
    ensures
        r matches Ok((_, n)) ==> 0 < n <= toks@.len(),
        toks@.len() == 0 ==> r is Err,
        key_rel(crate::imap::token::toks(toks@), depth as nat, r),
    decreases toks@.len(), 2int,
{
    reveal(one_spec);
    let ghost t = crate::imap::token::toks(toks@);
    if depth > MAX_SEARCH_DEPTH {
        return Err(ParseError::Syntax("search nesting too deep"));
    }
    if toks.len() == 0 {
        return Err(ParseError::Syntax("missing search key"));
    }
    assert(t[0] == toks@[0]@);
    if let Token::LParen = &toks[0] {
        return parse_group(toks, depth);
    }
    let head = match toks[0].as_str() {
        Some(h) => h,
        None => return Err(ParseError::Syntax("bad search key")),
    };
    let kw = to_upper(head);
    match parse_plain(toks, kw.as_slice()) {
        Some(x) => return x,
        None => {},
    }
    if is_kw(kw.as_slice(), "NOT") {
        let r = parse_not(toks, depth);
        assert(one_spec(t, r));
        return r;
    }
    if is_kw(kw.as_slice(), "OR") {
        let r = parse_or(toks, depth);
        assert(one_spec(t, r));
        return r;
    }
    match SequenceSet::parse_bytes(kw.as_slice()) {
        Some(set) => Ok((SearchKey::Sequence(set), 1)),
        None => Err(ParseError::Syntax("unknown search key")),
    }
}

#[verifier::spinoff_prover]
#[verifier::rlimit(100)]
fn parse_search_key_depth(toks: &[Token], depth: usize) -> (r: Result<SearchKey, ParseError>)
    requires
        depth + toks@.len() <= usize::MAX,
    ensures
        depth > MAX_SEARCH_DEPTH ==> r is Err,
        depth <= MAX_SEARCH_DEPTH && toks@.len() == 0 ==> r matches Ok(SearchKey::All),
        prog_rel(crate::imap::token::toks(toks@), depth as nat, r),
        r matches Err(e) ==> e is Syntax,
    decreases toks@.len(), 3int,
{
    let ghost t = crate::imap::token::toks(toks@);
    if depth > MAX_SEARCH_DEPTH {
        return Err(ParseError::Syntax("search nesting too deep"));
    }
    if toks.len() == 0 {
        return Ok(SearchKey::All);
    }
    let mut keys: Vec<SearchKey> = Vec::new();
    let mut i: usize = 0;
    assert(t.skip(0) =~= t);
    assert(keys@ =~= Seq::<SearchKey>::empty());
    while i < toks.len()
        invariant
            i <= toks@.len(),
            t == crate::imap::token::toks(toks@),
            depth <= MAX_SEARCH_DEPTH,
            depth + toks@.len() <= usize::MAX,
            forall|rest: Seq<SearchKey>| #[trigger] keys_rel(t.skip(i as int), depth as nat, rest) ==> keys_rel(
                t,
                depth as nat,
                keys@ + rest,
            ),
            keys_fail(t.skip(i as int), depth as nat) ==> keys_fail(t, depth as nat),
        decreases toks@.len() - i,
    {
        let rest = crate::imap::token::toks_range(toks, i, toks.len());
        assert(crate::imap::token::toks(rest@) =~= t.skip(i as int));
        let ghost ti = t.skip(i as int);
        match parse_one(rest, depth) {
            Ok((key, used)) => {
                proof {
                    assert(ti.skip(used as int) =~= t.skip(i + used));
                    assert forall|more: Seq<SearchKey>| #[trigger] keys_rel(t.skip(i + used), depth as nat, more) implies keys_rel(
                        t,
                        depth as nat,
                        keys@.push(key) + more,
                    ) by {
                        lemma_keys_cons(ti, depth as nat, key, used, more);
                        assert(keys@ + (seq![key] + more) =~= keys@.push(key) + more);
                    }
                    if keys_fail(t.skip(i + used), depth as nat) {
                        lemma_fail_cons(ti, depth as nat, key, used);
                    }
                }
                keys.push(key);
                i = i + used;
            },
            Err(e) => {
                proof {
                    lemma_fail_here(ti, depth as nat, e);
                    lemma_prog_err(t, depth as nat, e);
                }
                return Err(e);
            },
        }
    }
    proof {
        assert(t.skip(i as int) =~= Seq::<crate::imap::token::Tok>::empty());
        lemma_keys_end(t.skip(i as int), depth as nat);
        assert(keys@ + Seq::<SearchKey>::empty() =~= keys@);
    }
    let ghost ks = keys@;
    if keys.len() == 1 {
        match keys.pop() {
            Some(k) => {
                proof {
                    lemma_prog_ok(t, depth as nat, ks, k);
                }
                Ok(k)
            },
            None => Ok(SearchKey::All),
        }
    } else {
        let r = SearchKey::And(keys);
        proof {
            lemma_prog_ok(t, depth as nat, ks, r);
        }
        Ok(r)
    }
}

/// Parse a full (top-level) search program; a sequence of keys is ANDed together. An empty
/// program matches everything; nesting deeper than [`MAX_SEARCH_DEPTH`] fails closed.
pub fn parse_search_key(toks: &[Token]) -> (r: Result<SearchKey, ParseError>)
    ensures
        toks@.len() == 0 ==> r matches Ok(SearchKey::All),
        prog_rel(crate::imap::token::toks(toks@), 0, r),
{
    let _n = toks.len();
    parse_search_key_depth(toks, 0)
}


// ---------------------------------------------------------------------------------------------
// Evaluation
// ---------------------------------------------------------------------------------------------

/// Case-insensitive containment as users expect it: both sides Unicode lower-cased, then a
/// substring search; an empty needle is always contained.
pub open spec fn icontains_spec(h: Seq<char>, n: Seq<char>) -> bool {
    n.len() == 0 || exists|i: int|
        crate::bytes::occurs_at(
            crate::bytes::utf8(crate::text::unicode_lower(h)),
            crate::bytes::utf8(crate::text::unicode_lower(n)),
            i,
        )
}

/// Case-insensitive containment (full Unicode case folding).
pub fn icontains(haystack: &str, needle: &str) -> (r: bool)
    ensures
        r == icontains_spec(haystack@, needle@),
{
    if needle.is_empty() {
        return true;
    }
    let h = crate::text::to_lowercase(haystack);
    let n = crate::text::to_lowercase(needle);
    let hb = h.as_str().as_bytes();
    let nb = n.as_str().as_bytes();
    assert(hb@ == crate::bytes::utf8(crate::text::unicode_lower(haystack@)));
    assert(nb@ == crate::bytes::utf8(crate::text::unicode_lower(needle@)));
    match crate::bytes::find_sub(hb, nb) {
        Some(i) => {
            assert(crate::bytes::occurs_at(hb@, nb@, i as int));
            true
        },
        None => false,
    }
}

/// The header fields of a raw message, as text.
pub open spec fn raw_headers(raw: Seq<u8>) -> Seq<(Seq<char>, Seq<char>)> {
    crate::mime::pairs_text(
        crate::mime::header_block_spec(raw.subrange(0, crate::mime::body_offset_spec(raw))),
    )
}

/// The body bytes of a raw message.
pub open spec fn raw_body(raw: Seq<u8>) -> Seq<u8> {
    raw.subrange(crate::mime::body_offset_spec(raw), raw.len() as int)
}

/// The first header field named `name` (ASCII case-insensitive) among `hs`, as written.
pub open spec fn header_in(hs: Seq<(Seq<char>, Seq<char>)>, name: Seq<u8>) -> Option<Seq<char>> {
    let k = crate::mime::header_index(crate::mime::text_pairs_bytes(hs), name, 0);
    if 0 <= k < hs.len() {
        Some(hs[k].1)
    } else {
        None
    }
}

/// The first header named `name` of a raw message, as written.
pub open spec fn header_raw(raw: Seq<u8>, name: Seq<u8>) -> Option<Seq<char>> {
    header_in(raw_headers(raw), name)
}

/// A header value with its RFC 2047 encoded words decoded.
pub open spec fn decoded_text(v: Seq<char>) -> Seq<char> {
    crate::text::utf8_lossy(crate::mime::ew_from(crate::bytes::utf8(v), 0, false))
}

/// Whether the decoded first header `name` among `hs` contains the needle.
pub open spec fn header_has_in(hs: Seq<(Seq<char>, Seq<char>)>, name: Seq<u8>, needle: Seq<char>) -> bool {
    match header_in(hs, name) {
        Some(v) => icontains_spec(decoded_text(v), needle),
        None => false,
    }
}

/// Whether the decoded first header `name` of a raw message contains the needle.
pub open spec fn header_has(raw: Seq<u8>, name: Seq<u8>, needle: Seq<char>) -> bool {
    header_has_in(raw_headers(raw), name, needle)
}

/// The decoded body text a user sees.
pub open spec fn body_text(raw: Seq<u8>) -> Seq<char> {
    crate::mime::decoded_body_spec(crate::mime::text_pairs_bytes(raw_headers(raw)), raw_body(raw)).0
}

/// The TEXT haystack: every header as `name: decoded value` and a newline, then the body text.
pub open spec fn header_lines(hs: Seq<(Seq<char>, Seq<char>)>) -> Seq<char>
    decreases hs.len(),
{
    if hs.len() == 0 {
        seq![]
    } else {
        header_lines(hs.drop_last()) + hs.last().0 + ": "@ + decoded_text(hs.last().1) + "\n"@
    }
}

/// The month number (1 to 12) of an English month abbreviation, case-insensitively.
pub open spec fn month_num_spec(m: Seq<u8>) -> Option<int> {
    let l = crate::bytes::lower_seq(m);
    if l == crate::bytes::lit("jan") {
        Some(1)
    } else if l == crate::bytes::lit("feb") {
        Some(2)
    } else if l == crate::bytes::lit("mar") {
        Some(3)
    } else if l == crate::bytes::lit("apr") {
        Some(4)
    } else if l == crate::bytes::lit("may") {
        Some(5)
    } else if l == crate::bytes::lit("jun") {
        Some(6)
    } else if l == crate::bytes::lit("jul") {
        Some(7)
    } else if l == crate::bytes::lit("aug") {
        Some(8)
    } else if l == crate::bytes::lit("sep") {
        Some(9)
    } else if l == crate::bytes::lit("oct") {
        Some(10)
    } else if l == crate::bytes::lit("nov") {
        Some(11)
    } else if l == crate::bytes::lit("dec") {
        Some(12)
    } else {
        None
    }
}

fn lower_is(m: &[u8], l: &str) -> (r: bool)
    ensures
        r == (crate::bytes::lower_seq(m@) == crate::bytes::lit(l)),
{
    let low = crate::bytes::to_lower(m);
    crate::bytes::bytes_eq(low.as_slice(), l.as_bytes())
}

pub(crate) fn month_num(m: &[u8]) -> (r: Option<i64>)
    ensures
        match r {
            Some(v) => month_num_spec(m@) == Some(v as int),
            None => month_num_spec(m@) is None,
        },
{
    if lower_is(m, "jan") {
        Some(1)
    } else if lower_is(m, "feb") {
        Some(2)
    } else if lower_is(m, "mar") {
        Some(3)
    } else if lower_is(m, "apr") {
        Some(4)
    } else if lower_is(m, "may") {
        Some(5)
    } else if lower_is(m, "jun") {
        Some(6)
    } else if lower_is(m, "jul") {
        Some(7)
    } else if lower_is(m, "aug") {
        Some(8)
    } else if lower_is(m, "sep") {
        Some(9)
    } else if lower_is(m, "oct") {
        Some(10)
    } else if lower_is(m, "nov") {
        Some(11)
    } else if lower_is(m, "dec") {
        Some(12)
    } else {
        None
    }
}

/// An IMAP `date` (`d-Mon-yyyy`, surrounding white space and quotes allowed) as (year, month,
/// day): the first three `-`-separated fields.
pub open spec fn imap_date_spec(d: Seq<u8>) -> Option<(int, int, int)> {
    let t = crate::mime::trim_quotes_spec(crate::bytes::trim_spec(d));
    let f = crate::bytes::split_spec(t, 45);
    if f.len() < 3 {
        None
    } else {
        match (crate::bytes::parse_i64_spec(f[0]), month_num_spec(f[1]), crate::bytes::parse_i64_spec(f[2])) {
            (Some(day), Some(mon), Some(year)) => Some((year, mon, day)),
            _ => None,
        }
    }
}

/// Parse an IMAP `date`.
pub fn parse_imap_date(d: &[u8]) -> (r: Option<(i64, i64, i64)>)
    ensures
        match r {
            Some((y, m, dd)) => imap_date_spec(d@) == Some((y as int, m as int, dd as int)),
            None => imap_date_spec(d@) is None,
        },
{
    let t = crate::mime::trim_quotes(crate::bytes::trim(d));
    let f = crate::bytes::split_on(t, 45);
    if f.len() < 3 {
        return None;
    }
    assert(crate::bytes::views(f@)[0] == f@[0]@);
    assert(crate::bytes::views(f@)[1] == f@[1]@);
    assert(crate::bytes::views(f@)[2] == f@[2]@);
    let day = match crate::bytes::parse_i64(f[0].as_slice()) {
        Some(v) => v,
        None => return None,
    };
    let mon = match month_num(f[1].as_slice()) {
        Some(v) => v,
        None => return None,
    };
    let year = match crate::bytes::parse_i64(f[2].as_slice()) {
        Some(v) => v,
        None => return None,
    };
    Some((year, mon, day))
}

/// The day of an RFC 5322 `Date:` value: commas read as spaces, an optional weekday token
/// skipped (a first token that is neither a month nor a number), then day, month and year.
pub open spec fn rfc5322_day_spec(v: Seq<u8>) -> Option<(int, int, int)> {
    let cleaned = v.map_values(|b: u8| if b == 44 { 32u8 } else { b });
    let toks = crate::smtp::ws_tokens(cleaned);
    if toks.len() == 0 {
        None
    } else {
        let skip: int = if month_num_spec(toks[0]) is None && crate::bytes::parse_i64_spec(toks[0]) is None {
            1
        } else {
            0
        };
        if toks.len() < skip + 3 {
            None
        } else {
            match (
                crate::bytes::parse_i64_spec(toks[skip]),
                month_num_spec(toks[skip + 1]),
                crate::bytes::parse_i64_spec(toks[skip + 2]),
            ) {
                (Some(day), Some(mon), Some(year)) => Some((year, mon, day)),
                _ => None,
            }
        }
    }
}

/// Extract (year, month, day) from an RFC 5322 `Date:` value (best effort).
pub fn parse_rfc5322_day(date: &[u8]) -> (r: Option<(i64, i64, i64)>)
    ensures
        match r {
            Some((y, m, d)) => rfc5322_day_spec(date@) == Some((y as int, m as int, d as int)),
            None => rfc5322_day_spec(date@) is None,
        },
{
    let mut cleaned: Vec<u8> = Vec::new();
    let mut i: usize = 0;
    while i < date.len()
        invariant
            i <= date@.len(),
            cleaned@ == date@.take(i as int).map_values(|b: u8| if b == 44 { 32u8 } else { b }),
        decreases date@.len() - i,
    {
        cleaned.push(if date[i] == 44 { 32 } else { date[i] });
        assert(cleaned@ =~= date@.take(i + 1).map_values(|b: u8| if b == 44 { 32u8 } else { b }));
        i += 1;
    }
    assert(date@.take(i as int) =~= date@);
    let toks = crate::smtp::split_ws(cleaned.as_slice());
    if toks.len() == 0 {
        return None;
    }
    let ghost tv = crate::bytes::views(toks@);
    assert(tv[0] == toks@[0]@);
    let skip: usize = if month_num(toks[0].as_slice()).is_none() && crate::bytes::parse_i64(
        toks[0].as_slice(),
    ).is_none() {
        1
    } else {
        0
    };
    if toks.len() < skip + 3 {
        return None;
    }
    assert(tv[skip as int] == toks@[skip as int]@);
    assert(tv[skip + 1] == toks@[skip + 1]@);
    assert(tv[skip + 2] == toks@[skip + 2]@);
    let day = match crate::bytes::parse_i64(toks[skip].as_slice()) {
        Some(v) => v,
        None => return None,
    };
    let mon = match month_num(toks[skip + 1].as_slice()) {
        Some(v) => v,
        None => return None,
    };
    let year = match crate::bytes::parse_i64(toks[skip + 2].as_slice()) {
        Some(v) => v,
        None => return None,
    };
    Some((year, mon, day))
}

/// Tuple order on (year, month, day).
pub open spec fn ymd_lt(a: (int, int, int), b: (int, int, int)) -> bool {
    a.0 < b.0 || (a.0 == b.0 && (a.1 < b.1 || (a.1 == b.1 && a.2 < b.2)))
}

fn ymd_less(a: (i64, i64, i64), b: (i64, i64, i64)) -> (r: bool)
    ensures
        r == ymd_lt((a.0 as int, a.1 as int, a.2 as int), (b.0 as int, b.1 as int, b.2 as int)),
{
    a.0 < b.0 || (a.0 == b.0 && (a.1 < b.1 || (a.1 == b.1 && a.2 < b.2)))
}

/// How a date key compares the message's day with the key's.
#[derive(Debug, Clone, Copy, PartialEq, Eq, Structural)]
pub enum DateTest {
    Before,
    On,
    Since,
}

pub open spec fn date_test_spec(t: DateTest, a: (int, int, int), b: (int, int, int)) -> bool {
    match t {
        DateTest::Before => ymd_lt(a, b),
        DateTest::On => a == b,
        DateTest::Since => !ymd_lt(a, b),
    }
}

fn date_test(t: DateTest, a: (i64, i64, i64), b: (i64, i64, i64)) -> (r: bool)
    ensures
        r == date_test_spec(t, (a.0 as int, a.1 as int, a.2 as int), (b.0 as int, b.1 as int, b.2 as int)),
{
    match t {
        DateTest::Before => ymd_less(a, b),
        DateTest::On => a.0 == b.0 && a.1 == b.1 && a.2 == b.2,
        DateTest::Since => !ymd_less(a, b),
    }
}

/// Per-message context for [`eval`]: the message and its sequence and UID coordinates.
pub struct SearchCtx<'a> {
    pub seq: u32,
    pub max_seq: u32,
    pub uid: u32,
    pub max_uid: u32,
    pub msg: &'a Message,
}

impl<'a> SearchCtx<'a> {
    /// A context for `msg` at the given coordinates.
    pub fn new(seq: u32, max_seq: u32, uid: u32, max_uid: u32, msg: &'a Message) -> (r: SearchCtx<'a>)
        ensures
            r.seq == seq && r.max_seq == max_seq && r.uid == uid && r.max_uid == max_uid && r.msg
                == msg,
    {
        SearchCtx { seq, max_seq, uid, max_uid, msg }
    }
}

/// The day a sent-date key compares: the `Date:` header's, else the internal date's.
pub open spec fn sent_day(m: Message) -> (int, int, int) {
    match header_raw(m.raw@, crate::bytes::lit("Date")) {
        Some(v) => match rfc5322_day_spec(crate::bytes::utf8(v)) {
            Some(d) => d,
            None => crate::date::ymd_spec(m.internal_date),
        },
        None => crate::date::ymd_spec(m.internal_date),
    }
}

/// A date key's verdict for a day: false when the key's date does not parse.
pub open spec fn date_key(t: DateTest, day: (int, int, int), d: Seq<u8>) -> bool {
    match imap_date_spec(d) {
        Some(target) => date_test_spec(t, day, target),
        None => false,
    }
}

/// Every one of the first `n` keys holds.
pub open spec fn eval_and(ks: Seq<SearchKey>, n: int, c: SearchCtx, saved: Seq<u32>) -> bool
    decreases ks, n,
{
    if n <= 0 {
        true
    } else {
        eval_and(ks, n - 1, c, saved) && (n <= ks.len() ==> eval_spec(ks[n - 1], c, saved))
    }
}

proof fn lemma_eval_and(ks: Seq<SearchKey>, n: int, c: SearchCtx, saved: Seq<u32>)
    requires
        0 <= n <= ks.len(),
    ensures
        eval_and(ks, n, c, saved) <==> forall|j: int| 0 <= j < n ==> #[trigger] eval_spec(ks[j], c, saved),
    decreases n,
{
    if n > 0 {
        lemma_eval_and(ks, n - 1, c, saved);
        assert(eval_and(ks, n, c, saved) == (eval_and(ks, n - 1, c, saved) && eval_spec(
            ks[n - 1],
            c,
            saved,
        )));
        if forall|j: int| 0 <= j < n ==> #[trigger] eval_spec(ks[j], c, saved) {
            assert forall|j: int| 0 <= j < n - 1 implies #[trigger] eval_spec(ks[j], c, saved) by {
            }
            assert(eval_spec(ks[n - 1], c, saved));
        }
        if eval_and(ks, n, c, saved) {
            assert forall|j: int| 0 <= j < n implies #[trigger] eval_spec(ks[j], c, saved) by {
                if j < n - 1 {
                }
            }
        }
    }
}

/// Whether the message carries the flag.
pub open spec fn carries(m: Message, f: Flag) -> bool {
    crate::store::has_flag_spec(m.flags@, f)
}

/// What a search key says of a message (see [`eval_saved`]).
pub open spec fn eval_spec(key: SearchKey, c: SearchCtx, saved: Seq<u32>) -> bool
    decreases key, 0int,
{
    let m = *c.msg;
    let raw = m.raw@;
    let text = |v: Vec<u8>| crate::text::utf8_lossy(v@);
    match key {
        SearchKey::All => true,
        SearchKey::And(ks) => eval_and(ks@, ks@.len() as int, c, saved),
        SearchKey::Or(a, b) => eval_spec(*a, c, saved) || eval_spec(*b, c, saved),
        SearchKey::Not(k) => !eval_spec(*k, c, saved),
        SearchKey::Answered => carries(m, Flag::Answered),
        SearchKey::Unanswered => !carries(m, Flag::Answered),
        SearchKey::Deleted => carries(m, Flag::Deleted),
        SearchKey::Undeleted => !carries(m, Flag::Deleted),
        SearchKey::Draft => carries(m, Flag::Draft),
        SearchKey::Undraft => !carries(m, Flag::Draft),
        SearchKey::Flagged => carries(m, Flag::Flagged),
        SearchKey::Unflagged => !carries(m, Flag::Flagged),
        SearchKey::Seen => carries(m, Flag::Seen),
        SearchKey::Unseen => !carries(m, Flag::Seen),
        SearchKey::Recent => carries(m, Flag::Recent),
        SearchKey::New => carries(m, Flag::Recent) && !carries(m, Flag::Seen),
        SearchKey::Old => !carries(m, Flag::Recent),
        SearchKey::Keyword(k) => crate::store::has_flag_spec(m.flags@, Flag::Keyword(k)),
        SearchKey::Unkeyword(k) => !crate::store::has_flag_spec(m.flags@, Flag::Keyword(k)),
        SearchKey::From(v) => header_has(raw, crate::bytes::lit("From"), text(v)),
        SearchKey::To(v) => header_has(raw, crate::bytes::lit("To"), text(v)),
        SearchKey::Cc(v) => header_has(raw, crate::bytes::lit("Cc"), text(v)),
        SearchKey::Bcc(v) => header_has(raw, crate::bytes::lit("Bcc"), text(v)),
        SearchKey::Subject(v) => header_has(raw, crate::bytes::lit("Subject"), text(v)),
        SearchKey::Header(f, v) => match header_raw(raw, crate::bytes::utf8(text(f))) {
            Some(h) => icontains_spec(decoded_text(h), text(v)),
            None => v@.len() == 0,
        },
        SearchKey::Body(v) => icontains_spec(body_text(raw), text(v)),
        SearchKey::Text(v) => icontains_spec(header_lines(raw_headers(raw)) + body_text(raw), text(v)),
        SearchKey::Larger(n) => raw.len() > n,
        SearchKey::Smaller(n) => raw.len() < n,
        SearchKey::Uid(set) => if set@.1 {
            saved.contains(c.uid)
        } else {
            set.has(c.uid, c.max_uid)
        },
        SearchKey::Sequence(set) => if set@.1 {
            saved.contains(c.uid)
        } else {
            set.has(c.seq, c.max_seq)
        },
        SearchKey::ModSeq(n) => m.modseq >= n,
        SearchKey::Before(d) => date_key(DateTest::Before, crate::date::ymd_spec(m.internal_date), d@),
        SearchKey::On(d) => date_key(DateTest::On, crate::date::ymd_spec(m.internal_date), d@),
        SearchKey::Since(d) => date_key(DateTest::Since, crate::date::ymd_spec(m.internal_date), d@),
        SearchKey::SentBefore(d) => date_key(DateTest::Before, sent_day(m), d@),
        SearchKey::SentOn(d) => date_key(DateTest::On, sent_day(m), d@),
        SearchKey::SentSince(d) => date_key(DateTest::Since, sent_day(m), d@),
    }
}


fn header_of<'a>(p: &'a crate::mime::ParsedMessage, name: &str) -> (r: Option<&'a str>)
    ensures
        match r {
            Some(v) => header_in(crate::mime::headers_view(p.headers@), crate::bytes::lit(name))
                == Some(v@),
            None => header_in(crate::mime::headers_view(p.headers@), crate::bytes::lit(name)) is None,
        },
{
    p.header(name)
}

fn hdr_contains(p: &crate::mime::ParsedMessage, name: &str, needle: &str) -> (r: bool)
    ensures
        r == header_has_in(crate::mime::headers_view(p.headers@), crate::bytes::lit(name), needle@),
{
    match header_of(p, name) {
        Some(h) => icontains(crate::mime::decode_encoded_words(h).as_str(), needle),
        None => false,
    }
}

fn text_haystack(p: &crate::mime::ParsedMessage) -> (r: String)
    ensures
        r@ == header_lines(crate::mime::headers_view(p.headers@)) + crate::mime::decoded_body_spec(
            crate::mime::message_headers(p),
            p.body@,
        ).0,
{
    let ghost hs = crate::mime::headers_view(p.headers@);
    let mut hay = String::new();
    let mut i: usize = 0;
    while i < p.headers.len()
        invariant
            i <= p.headers@.len(),
            hs == crate::mime::headers_view(p.headers@),
            hay@ == header_lines(hs.take(i as int)),
        decreases p.headers@.len() - i,
    {
        let ghost t = hs.take(i + 1);
        assert(t.drop_last() =~= hs.take(i as int));
        assert(t.last() == (p.headers@[i as int].0@, p.headers@[i as int].1@));
        hay.append(p.headers[i].0.as_str());
        hay.append(": ");
        let d = crate::mime::decode_encoded_words(p.headers[i].1.as_str());
        hay.append(d.as_str());
        hay.append("\n");
        i += 1;
    }
    assert(hs.take(i as int) =~= hs);
    let body = crate::mime::decoded_body_text(p);
    hay.append(body.0.as_str());
    hay
}

fn saved_contains(saved: &[u32], uid: u32) -> (r: bool)
    ensures
        r == saved@.contains(uid),
{
    let mut i: usize = 0;
    while i < saved.len()
        invariant
            i <= saved@.len(),
            forall|j: int| 0 <= j < i ==> saved@[j] != uid,
        decreases saved@.len() - i,
    {
        if saved[i] == uid {
            return true;
        }
        i += 1;
    }
    false
}

fn date_key_exec(t: DateTest, day: (i64, i64, i64), d: &[u8]) -> (r: bool)
    ensures
        r == date_key(t, (day.0 as int, day.1 as int, day.2 as int), d@),
{
    match parse_imap_date(d) {
        Some(target) => date_test(t, day, target),
        None => false,
    }
}

pub(crate) fn sent_day_exec(m: &Message) -> (r: (i64, i64, i64))
    ensures
        (r.0 as int, r.1 as int, r.2 as int) == sent_day(*m),
{
    let p = m.parsed_cached();
    match header_of(&p, "Date") {
        Some(v) => match parse_rfc5322_day(v.as_bytes()) {
            Some(d) => d,
            None => crate::date::ymd_from_ms(m.internal_date),
        },
        None => crate::date::ymd_from_ms(m.internal_date),
    }
}

/// Evaluate a search key against one message.
pub fn eval(key: &SearchKey, c: &SearchCtx) -> (r: bool)
    ensures
        r == eval_spec(*key, *c, seq![]),
{
    let none: Vec<u32> = Vec::new();
    assert(none@ =~= Seq::<u32>::empty());
    eval_saved(key, c, none.as_slice())
}

/// Evaluate a search key, the SEARCHRES reference `$` (RFC 5182) standing for the UIDs in
/// `saved_uids`. Flags, sizes, modseqs and sequence sets are read off the message and its
/// coordinates; header keys search the RFC 2047-decoded value, BODY the transfer- and
/// charset-decoded body, TEXT both, all case-insensitively (full Unicode case folding); date
/// keys compare days (a key date that does not parse matches nothing).
pub fn eval_saved(key: &SearchKey, c: &SearchCtx, saved_uids: &[u32]) -> (r: bool)
    ensures
        r == eval_spec(*key, *c, saved_uids@),
    decreases key,
{
    let m = c.msg;
    match key {
        SearchKey::All => true,
        SearchKey::And(ks) => {
            proof {
                assert(decreases_to!(*key => *ks));
                assert(decreases_to!(*ks => ks@));
                lemma_eval_and(ks@, ks@.len() as int, *c, saved_uids@);
            }
            let mut i: usize = 0;
            while i < ks.len()
                invariant
                    i <= ks@.len(),
                    forall|j: int| 0 <= j < i ==> eval_spec(#[trigger] ks@[j], *c, saved_uids@),
                    eval_spec(*key, *c, saved_uids@) == (forall|j: int|
                        0 <= j < ks@.len() ==> #[trigger] eval_spec(ks@[j], *c, saved_uids@)),
                    decreases_to!(*key => *ks),
                    decreases_to!(*ks => ks@),
                decreases ks@.len() - i,
            {
                proof {
                    assert(decreases_to!(ks@ => ks@[i as int]));
                }
                if !eval_saved(&ks[i], c, saved_uids) {
                    assert(!eval_spec(ks@[i as int], *c, saved_uids@));
                    return false;
                }
                i += 1;
            }
            true
        },
        SearchKey::Or(a, b) => eval_saved(a, c, saved_uids) || eval_saved(b, c, saved_uids),
        SearchKey::Not(k) => !eval_saved(k, c, saved_uids),
        SearchKey::Answered => m.has_flag(&Flag::Answered),
        SearchKey::Unanswered => !m.has_flag(&Flag::Answered),
        SearchKey::Deleted => m.has_flag(&Flag::Deleted),
        SearchKey::Undeleted => !m.has_flag(&Flag::Deleted),
        SearchKey::Draft => m.has_flag(&Flag::Draft),
        SearchKey::Undraft => !m.has_flag(&Flag::Draft),
        SearchKey::Flagged => m.has_flag(&Flag::Flagged),
        SearchKey::Unflagged => !m.has_flag(&Flag::Flagged),
        SearchKey::Seen => m.has_flag(&Flag::Seen),
        SearchKey::Unseen => !m.has_flag(&Flag::Seen),
        SearchKey::Recent => m.has_flag(&Flag::Recent),
        SearchKey::New => m.has_flag(&Flag::Recent) && !m.has_flag(&Flag::Seen),
        SearchKey::Old => !m.has_flag(&Flag::Recent),
        SearchKey::Keyword(k) => m.has_flag(&Flag::Keyword(to_vec(k.as_slice()))),
        SearchKey::Unkeyword(k) => !m.has_flag(&Flag::Keyword(to_vec(k.as_slice()))),
        SearchKey::From(v) => {
            let p = m.parsed_cached();
            hdr_contains(&p, "From", lossy_string(v.as_slice()).as_str())
        },
        SearchKey::To(v) => {
            let p = m.parsed_cached();
            hdr_contains(&p, "To", lossy_string(v.as_slice()).as_str())
        },
        SearchKey::Cc(v) => {
            let p = m.parsed_cached();
            hdr_contains(&p, "Cc", lossy_string(v.as_slice()).as_str())
        },
        SearchKey::Bcc(v) => {
            let p = m.parsed_cached();
            hdr_contains(&p, "Bcc", lossy_string(v.as_slice()).as_str())
        },
        SearchKey::Subject(v) => {
            let p = m.parsed_cached();
            hdr_contains(&p, "Subject", lossy_string(v.as_slice()).as_str())
        },
        SearchKey::Header(f, v) => {
            let p = m.parsed_cached();
            let name = lossy_string(f.as_slice());
            match header_of(&p, name.as_str()) {
                Some(h) => icontains(
                    crate::mime::decode_encoded_words(h).as_str(),
                    lossy_string(v.as_slice()).as_str(),
                ),
                None => v.len() == 0,
            }
        },
        SearchKey::Body(v) => {
            let p = m.parsed_cached();
            let body = crate::mime::decoded_body_text(&p);
            icontains(body.0.as_str(), lossy_string(v.as_slice()).as_str())
        },
        SearchKey::Text(v) => {
            let p = m.parsed_cached();
            let hay = text_haystack(&p);
            icontains(hay.as_str(), lossy_string(v.as_slice()).as_str())
        },
        SearchKey::Larger(n) => m.size() > *n,
        SearchKey::Smaller(n) => m.size() < *n,
        SearchKey::Uid(set) => if set.is_saved() {
            saved_contains(saved_uids, c.uid)
        } else {
            set.contains(c.uid, c.max_uid)
        },
        SearchKey::Sequence(set) => if set.is_saved() {
            saved_contains(saved_uids, c.uid)
        } else {
            set.contains(c.seq, c.max_seq)
        },
        SearchKey::ModSeq(n) => m.modseq >= *n,
        SearchKey::Before(d) => date_key_exec(DateTest::Before, crate::date::ymd_from_ms(m.internal_date), d.as_slice()),
        SearchKey::On(d) => date_key_exec(DateTest::On, crate::date::ymd_from_ms(m.internal_date), d.as_slice()),
        SearchKey::Since(d) => date_key_exec(DateTest::Since, crate::date::ymd_from_ms(m.internal_date), d.as_slice()),
        SearchKey::SentBefore(d) => date_key_exec(DateTest::Before, sent_day_exec(m), d.as_slice()),
        SearchKey::SentOn(d) => date_key_exec(DateTest::On, sent_day_exec(m), d.as_slice()),
        SearchKey::SentSince(d) => date_key_exec(DateTest::Since, sent_day_exec(m), d.as_slice()),
    }
}


/// For a system flag, carrying it is holding it in the flag list.
proof fn lemma_carries_system(m: Message, f: Flag)
    requires
        !(f is Keyword),
    ensures
        carries(m, f) == m.flags@.contains(f),
{
    if m.flags@.contains(f) {
        let i = choose|i: int| 0 <= i < m.flags@.len() && m.flags@[i] == f;
        assert(crate::store::same_flag(m.flags@[i], f));
    }
    if carries(m, f) {
        let i = choose|i: int| 0 <= i < m.flags@.len() && crate::store::same_flag(#[trigger] m.flags@[i], f);
        assert(m.flags@[i] == f);
    }
}

/// The flag keys read the message's flags: ANSWERED, DELETED, DRAFT, FLAGGED and SEEN match a
/// message holding that flag and their UN- forms exactly the others; RECENT matches a recent
/// message, OLD the others, NEW a recent one not yet seen.
pub proof fn law_flag_keys(c: SearchCtx, saved: Seq<u32>)
    ensures
        ({
            let fl = c.msg.flags@;
            &&& eval_spec(SearchKey::Answered, c, saved) == fl.contains(Flag::Answered)
            &&& eval_spec(SearchKey::Unanswered, c, saved) == !fl.contains(Flag::Answered)
            &&& eval_spec(SearchKey::Deleted, c, saved) == fl.contains(Flag::Deleted)
            &&& eval_spec(SearchKey::Undeleted, c, saved) == !fl.contains(Flag::Deleted)
            &&& eval_spec(SearchKey::Draft, c, saved) == fl.contains(Flag::Draft)
            &&& eval_spec(SearchKey::Undraft, c, saved) == !fl.contains(Flag::Draft)
            &&& eval_spec(SearchKey::Flagged, c, saved) == fl.contains(Flag::Flagged)
            &&& eval_spec(SearchKey::Unflagged, c, saved) == !fl.contains(Flag::Flagged)
            &&& eval_spec(SearchKey::Seen, c, saved) == fl.contains(Flag::Seen)
            &&& eval_spec(SearchKey::Unseen, c, saved) == !fl.contains(Flag::Seen)
            &&& eval_spec(SearchKey::Recent, c, saved) == fl.contains(Flag::Recent)
            &&& eval_spec(SearchKey::Old, c, saved) == !fl.contains(Flag::Recent)
            &&& eval_spec(SearchKey::New, c, saved) == (fl.contains(Flag::Recent) && !fl.contains(Flag::Seen))
        }),
{
    let m = *c.msg;
    lemma_carries_system(m, Flag::Answered);
    lemma_carries_system(m, Flag::Deleted);
    lemma_carries_system(m, Flag::Draft);
    lemma_carries_system(m, Flag::Flagged);
    lemma_carries_system(m, Flag::Seen);
    lemma_carries_system(m, Flag::Recent);
}

/// Each UN- key is the negation of its key, and NOT negates any key: on every message a key
/// and its opposite disagree.
pub proof fn law_negated_keys(c: SearchCtx, saved: Seq<u32>, k: SearchKey)
    ensures
        eval_spec(SearchKey::Unanswered, c, saved) == !eval_spec(SearchKey::Answered, c, saved),
        eval_spec(SearchKey::Undeleted, c, saved) == !eval_spec(SearchKey::Deleted, c, saved),
        eval_spec(SearchKey::Undraft, c, saved) == !eval_spec(SearchKey::Draft, c, saved),
        eval_spec(SearchKey::Unflagged, c, saved) == !eval_spec(SearchKey::Flagged, c, saved),
        eval_spec(SearchKey::Unseen, c, saved) == !eval_spec(SearchKey::Seen, c, saved),
        eval_spec(SearchKey::Old, c, saved) == !eval_spec(SearchKey::Recent, c, saved),
        eval_spec(SearchKey::Not(Box::new(k)), c, saved) == !eval_spec(k, c, saved),
{
    law_flag_keys(c, saved);
}


/// KEYWORD matches a message carrying that keyword (byte for byte) and UNKEYWORD exactly the
/// others; LARGER and SMALLER compare the message's size in octets, strictly; OR holds when
/// either side does.
pub proof fn law_keyword_size_or_keys(c: SearchCtx, saved: Seq<u32>, k: Vec<u8>, n: usize, a: SearchKey, b: SearchKey)
    ensures
        eval_spec(SearchKey::Keyword(k), c, saved) == exists|i: int|
            0 <= i < c.msg.flags@.len() && (#[trigger] c.msg.flags@[i] matches Flag::Keyword(x) && x@ == k@),
        eval_spec(SearchKey::Unkeyword(k), c, saved) == !eval_spec(SearchKey::Keyword(k), c, saved),
        eval_spec(SearchKey::Larger(n), c, saved) == (c.msg.raw@.len() > n),
        eval_spec(SearchKey::Smaller(n), c, saved) == (c.msg.raw@.len() < n),
        eval_spec(SearchKey::Or(Box::new(a), Box::new(b)), c, saved) == (eval_spec(a, c, saved) || eval_spec(b, c, saved)),
{
    let fl = c.msg.flags@;
    if eval_spec(SearchKey::Keyword(k), c, saved) {
        let i = choose|i: int| 0 <= i < fl.len() && crate::store::same_flag(#[trigger] fl[i], Flag::Keyword(k));
        assert(fl[i] matches Flag::Keyword(x) && x@ == k@);
    }
    if exists|i: int| 0 <= i < fl.len() && (#[trigger] fl[i] matches Flag::Keyword(x) && x@ == k@) {
        let i = choose|i: int| 0 <= i < fl.len() && (#[trigger] fl[i] matches Flag::Keyword(x) && x@ == k@);
        assert(crate::store::same_flag(fl[i], Flag::Keyword(k)));
    }
}


/// What a header key finds in one header: the decoded first header of that name contains the
/// value, case-insensitively; a message without the header never matches.
pub open spec fn header_holds(raw: Seq<u8>, name: &str, v: Vec<u8>) -> bool {
    match header_raw(raw, crate::bytes::lit(name)) {
        Some(h) => icontains_spec(decoded_text(h), crate::text::utf8_lossy(v@)),
        None => false,
    }
}

/// FROM, TO, CC, BCC and SUBJECT each search their own header and no other.
pub proof fn law_header_keys(c: SearchCtx, saved: Seq<u32>, v: Vec<u8>)
    ensures
        eval_spec(SearchKey::From(v), c, saved) == header_holds(c.msg.raw@, "From", v),
        eval_spec(SearchKey::To(v), c, saved) == header_holds(c.msg.raw@, "To", v),
        eval_spec(SearchKey::Cc(v), c, saved) == header_holds(c.msg.raw@, "Cc", v),
        eval_spec(SearchKey::Bcc(v), c, saved) == header_holds(c.msg.raw@, "Bcc", v),
        eval_spec(SearchKey::Subject(v), c, saved) == header_holds(c.msg.raw@, "Subject", v),
{
}

} // verus!
