//! IMAP command parser (RFC 9051 §6 / RFC 3501 §6, `command`).
//!
//! [`parse_command`] tokenizes a complete command buffer and builds a typed [`Command`]. Grammar
//! not handled fails **closed** with a `BAD`-worthy [`ParseError`], never a silent guess.
use vstd::prelude::*;
use crate::bytes::{is_kw, parse_u32, parse_u64, slice_of, to_upper, to_vec};
use crate::search::{parse_search_key, SearchKey};
use crate::store::Flag;
use super::sequence::SequenceSet;
pub use super::token::{tokenize, ParseError, Token};
use super::token::{copy_range, toks_range};

verus! {

/// A parsed, tagged IMAP command.
#[derive(Debug, PartialEq, Eq)]
pub struct ParsedCommand {
    pub tag: Vec<u8>,
    pub command: Command,
}

#[derive(Debug, PartialEq, Eq)]
pub enum Command {
    Capability,
    Noop,
    Logout,
    StartTls,
    Enable(Vec<Vec<u8>>),
    Login { user: Vec<u8>, pass: Vec<u8> },
    Authenticate { mechanism: Vec<u8>, initial: Option<Vec<u8>> },
    Select { mailbox: Vec<u8>, qresync: Option<QResyncParams>, condstore: bool },
    Examine { mailbox: Vec<u8>, qresync: Option<QResyncParams>, condstore: bool },
    /// CREATE, optionally with a SPECIAL-USE `(USE (\Archive …))` attribute (RFC 6154 §3).
    Create { name: Vec<u8>, use_attr: Option<Vec<u8>> },
    Delete(Vec<u8>),
    Rename { from: Vec<u8>, to: Vec<u8> },
    Subscribe(Vec<u8>),
    Unsubscribe(Vec<u8>),
    List {
        reference: Vec<u8>,
        pattern: Vec<u8>,
        return_opts: Vec<Vec<u8>>,
        select_opts: Vec<Vec<u8>>,
    },
    Lsub { reference: Vec<u8>, pattern: Vec<u8> },
    Status { mailbox: Vec<u8>, items: Vec<Vec<u8>> },
    Append {
        mailbox: Vec<u8>,
        flags: Vec<Flag>,
        date: Option<Vec<u8>>,
        message: Vec<u8>,
        /// CATENATE parts (RFC 4469); `None` for an ordinary APPEND.
        catenate: Option<Vec<CatPart>>,
    },
    Check,
    Close,
    Unselect,
    Expunge,
    UidExpunge(SequenceSet),
    Idle,
    Namespace,
    Id(Option<Vec<(Vec<u8>, Vec<u8>)>>),
    Search { charset: Option<Vec<u8>>, key: SearchKey, uid: bool, ret: Vec<Vec<u8>> },
    Fetch {
        set: SequenceSet,
        items: Vec<FetchItem>,
        uid: bool,
        changedsince: Option<u64>,
        vanished: bool,
    },
    Store(StoreCommand),
    Copy { set: SequenceSet, mailbox: Vec<u8>, uid: bool },
    Move { set: SequenceSet, mailbox: Vec<u8>, uid: bool },
    /// SORT (RFC 5256): `SORT (criteria…) charset search-key`.
    Sort { criteria: Vec<SortCriterion>, charset: Option<Vec<u8>>, key: SearchKey, uid: bool },
    /// THREAD (RFC 5256): `THREAD algorithm charset search-key`.
    Thread { algorithm: ThreadAlgorithm, charset: Option<Vec<u8>>, key: SearchKey, uid: bool },
}

/// A SORT ordering criterion (RFC 5256 §3), optionally reversed.
#[derive(Debug, Clone, Copy, PartialEq, Eq)]
pub struct SortCriterion {
    pub reverse: bool,
    pub key: SortKey,
}

/// A SORT key (RFC 5256 §3): the sortable message attributes.
#[derive(Debug, Clone, Copy, PartialEq, Eq)]
pub enum SortKey {
    Arrival,
    Cc,
    Date,
    From,
    Size,
    Subject,
    To,
    /// `DISPLAYFROM` / `DISPLAYTO` (RFC 5957) — sort on the display name.
    DisplayFrom,
    DisplayTo,
}

/// A THREAD algorithm (RFC 5256 §3).
#[derive(Debug, Clone, Copy, PartialEq, Eq)]
pub enum ThreadAlgorithm {
    OrderedSubject,
    References,
}

/// QRESYNC SELECT/EXAMINE parameters (RFC 7162 §3.2.5).
#[derive(Debug, PartialEq, Eq)]
pub struct QResyncParams {
    pub uid_validity: u32,
    pub modseq: u64,
    pub known_uids: Option<SequenceSet>,
}

#[derive(Debug, PartialEq, Eq)]
pub struct StoreCommand {
    pub set: SequenceSet,
    pub op: StoreOp,
    pub flags: Vec<Flag>,
    pub silent: bool,
    pub uid: bool,
    pub unchangedsince: Option<u64>,
}

#[derive(Debug, Clone, Copy, PartialEq, Eq)]
pub enum StoreOp {
    Replace,
    Add,
    Remove,
}

/// One CATENATE part (RFC 4469 §2): inline `TEXT` bytes or an IMAP `URL` reference.
#[derive(Debug, Clone, PartialEq, Eq)]
pub enum CatPart {
    Text(Vec<u8>),
    Url(Vec<u8>),
}

/// A FETCH data item (RFC 9051 §6.4.5, `fetch-att`).
#[derive(Debug, Clone, PartialEq, Eq)]
pub enum FetchItem {
    Flags,
    Uid,
    InternalDate,
    Rfc822Size,
    Envelope,
    BodyStructure,
    /// `BODY` with no section = the non-extensible BODYSTRUCTURE.
    Body,
    Rfc822,
    Rfc822Header,
    Rfc822Text,
    ModSeq,
    /// `BODY[section]<partial>` / `BODY.PEEK[section]<partial>`.
    BodySection { peek: bool, section: Section, partial: Option<(u32, u32)> },
    /// `BINARY[section]<partial>` / `BINARY.PEEK[…]` (RFC 3516).
    Binary { peek: bool, section: Vec<u32>, partial: Option<(u32, u32)> },
    /// `BINARY.SIZE[section]` (RFC 3516).
    BinarySize { section: Vec<u32> },
}

/// A body section specifier (RFC 9051 §6.4.5, `section`).
#[derive(Debug, Clone, PartialEq, Eq)]
pub enum Section {
    /// `[]` — the whole message.
    Full,
    Header,
    HeaderFields(Vec<Vec<u8>>),
    HeaderFieldsNot(Vec<Vec<u8>>),
    Text,
    /// `[n]` / `[n.m]` — a numeric MIME part path.
    Part(Vec<u32>),
    /// `[n.MIME]` — a numeric part's MIME header.
    PartMime(Vec<u32>),
}

// ---------------------------------------------------------------------------------------------
// Specifications of the token helpers
// ---------------------------------------------------------------------------------------------

/// The `astring` argument at `i`, if there is one.
pub open spec fn str_at(a: Seq<super::token::Tok>, i: int) -> Option<Seq<u8>> {
    if 0 <= i < a.len() { super::token::tok_str(a[i]) } else { None }
}

/// The strings among `ts`, in order (other tokens dropped).
pub open spec fn strs(ts: Seq<super::token::Tok>) -> Seq<Seq<u8>>
    decreases ts.len(),
{
    if ts.len() == 0 {
        seq![]
    } else {
        match super::token::tok_str(ts.last()) {
            Some(s) => strs(ts.drop_last()).push(s),
            None => strs(ts.drop_last()),
        }
    }
}

/// The index of the closing parenthesis, scanning from `k` at nesting `depth`.
pub open spec fn close_from(a: Seq<super::token::Tok>, k: int, depth: nat, open_t: super::token::Tok, close_t: super::token::Tok) -> Option<int>
    decreases a.len() - k,
{
    if k < 0 || k >= a.len() {
        None
    } else if a[k] == open_t {
        close_from(a, k + 1, depth + 1, open_t, close_t)
    } else if a[k] == close_t {
        if depth == 1 { Some(k) } else { close_from(a, k + 1, (if depth == 0 { 0 } else { depth - 1 }) as nat, open_t, close_t) }
    } else {
        close_from(a, k + 1, depth, open_t, close_t)
    }
}

/// The parenthesis matching the `(` at `open`.
pub open spec fn paren_close(a: Seq<super::token::Tok>, open: int) -> Option<int> {
    close_from(a, open, 0, super::token::Tok::LParen, super::token::Tok::RParen)
}

/// A parenthesised group at `open`: its inner tokens and the index after the `)`.
pub open spec fn paren_group(a: Seq<super::token::Tok>, open: int) -> Option<(Seq<super::token::Tok>, int)> {
    if 0 <= open < a.len() && a[open] == super::token::Tok::LParen {
        match paren_close(a, open) {
            Some(k) => Some((a.subrange(open + 1, k), k + 1)),
            None => None,
        }
    } else {
        None
    }
}

pub open spec fn is_name(n: Seq<u8>, w: &str) -> bool {
    crate::bytes::eq_ci_spec(n, crate::bytes::lit(w))
}

proof fn lemma_close_from(a: Seq<super::token::Tok>, k: int, depth: nat, o: super::token::Tok, c: super::token::Tok)
    requires
        0 <= k,
    ensures
        close_from(a, k, depth, o, c) matches Some(j) ==> k <= j < a.len() && a[j] == c,
    decreases a.len() - k,
{
    if k < a.len() {
        if a[k] == o {
            lemma_close_from(a, k + 1, depth + 1, o, c);
        } else if a[k] == c {
            if depth != 1 {
                lemma_close_from(a, k + 1, (if depth == 0 { 0 } else { depth - 1 }) as nat, o, c);
            }
        } else {
            lemma_close_from(a, k + 1, depth, o, c);
        }
    }
}

// ---------------------------------------------------------------------------------------------
// Token helpers
// ---------------------------------------------------------------------------------------------

/// The `astring` argument at `i`.
fn atom_at(args: &[Token], i: usize) -> (r: Result<Vec<u8>, ParseError>)
    ensures
        syntax_err(r),
        match str_at(super::token::toks(args@), i as int) {
            Some(s) => r matches Ok(v) && v@ == s,
            None => r matches Err(ParseError::Syntax(_)),
        },
{
    if i >= args.len() {
        return Err(ParseError::Syntax("missing argument"));
    }
    match args[i].as_str() {
        Some(s) => Ok(to_vec(s)),
        None => Err(ParseError::Syntax("missing argument")),
    }
}

/// The optional `astring` argument at `i`.
fn opt_str_at(args: &[Token], i: usize) -> (r: Option<Vec<u8>>)
    ensures
        match str_at(super::token::toks(args@), i as int) {
            Some(s) => r matches Some(v) && v@ == s,
            None => r is None,
        },
{
    match atom_at(args, i) {
        Ok(v) => Some(v),
        Err(_) => None,
    }
}

fn is_open_t(t: &Token, brackets: bool) -> (r: bool)
    ensures
        r == (t@ == (if brackets { super::token::Tok::LBracket } else { super::token::Tok::LParen })),
{
    match t {
        Token::LParen => !brackets,
        Token::LBracket => brackets,
        _ => false,
    }
}

fn is_close_t(t: &Token, brackets: bool) -> (r: bool)
    ensures
        r == (t@ == (if brackets { super::token::Tok::RBracket } else { super::token::Tok::RParen })),
{
    match t {
        Token::RParen => !brackets,
        Token::RBracket => brackets,
        _ => false,
    }
}

/// The index closing the group opened at `open` (parentheses, or brackets).
fn matching(args: &[Token], open: usize, brackets: bool) -> (r: Option<usize>)
    ensures
        r matches Some(k) ==> close_from(super::token::toks(args@), open as int, 0,
            if brackets { super::token::Tok::LBracket } else { super::token::Tok::LParen },
            if brackets { super::token::Tok::RBracket } else { super::token::Tok::RParen }) == Some(k as int),
        r is None ==> close_from(super::token::toks(args@), open as int, 0,
            if brackets { super::token::Tok::LBracket } else { super::token::Tok::LParen },
            if brackets { super::token::Tok::RBracket } else { super::token::Tok::RParen }) is None,
        r matches Some(k) ==> open < k < args@.len() && super::token::toks(args@)[k as int] == (if brackets { super::token::Tok::RBracket } else { super::token::Tok::RParen }),
{
    let ghost a = super::token::toks(args@);
    let ghost o = if brackets { super::token::Tok::LBracket } else { super::token::Tok::LParen };
    let ghost c = if brackets { super::token::Tok::RBracket } else { super::token::Tok::RParen };
    let mut depth: usize = 0;
    let mut k: usize = open;
    while k < args.len()
        invariant
            open <= k,
            k <= args@.len() || k == open,
            a == super::token::toks(args@),
            o == (if brackets { super::token::Tok::LBracket } else { super::token::Tok::LParen }),
            c == (if brackets { super::token::Tok::RBracket } else { super::token::Tok::RParen }),
            depth + open <= k,
            close_from(a, open as int, 0, o, c) == close_from(a, k as int, depth as nat, o, c),
        decreases args@.len() - k,
    {
        assert(a[k as int] == args@[k as int]@);
        if is_open_t(&args[k], brackets) {
            depth += 1;
        } else if is_close_t(&args[k], brackets) {
            if depth == 1 {
                return Some(k);
            }
            if depth > 0 {
                depth -= 1;
            }
        }
        k += 1;
    }
    None
}

/// The parenthesised tokens opened at `open` and the index after the closing `)`.
fn read_paren_tokens(args: &[Token], open: usize) -> (r: Result<(Vec<Token>, usize), ParseError>)
    ensures
        syntax_err(r),
        match paren_group(super::token::toks(args@), open as int) {
            Some((inner, next)) => r matches Ok((v, n)) && super::token::toks(v@) == inner && n == next,
            None => r matches Err(ParseError::Syntax(_)),
        },
        r matches Ok((_, n)) ==> open < n <= args@.len(),
{
    if open >= args.len() {
        return Err(ParseError::Syntax("expected ("));
    }
    assert(super::token::toks(args@)[open as int] == args@[open as int]@);
    match &args[open] {
        Token::LParen => {},
        _ => {
            return Err(ParseError::Syntax("expected ("));
        },
    }
    match matching(args, open, false) {
        Some(end) => {
            proof {
                lemma_close_from(super::token::toks(args@), open as int, 0, super::token::Tok::LParen, super::token::Tok::RParen);
            }
            let v = copy_range(args, open + 1, end);
            Ok((v, end + 1))
        },
        None => Err(ParseError::Syntax("unbalanced parentheses")),
    }
}

/// The strings among the tokens.
fn strings_of(ts: &[Token]) -> (r: Vec<Vec<u8>>)
    ensures
        crate::bytes::views(r@) == strs(super::token::toks(ts@)),
{
    let mut out: Vec<Vec<u8>> = Vec::new();
    let mut i: usize = 0;
    while i < ts.len()
        invariant
            i <= ts@.len(),
            crate::bytes::views(out@) == strs(super::token::toks(ts@).take(i as int)),
        decreases ts@.len() - i,
    {
        assert(super::token::toks(ts@).take(i + 1).drop_last() =~= super::token::toks(ts@).take(i as int));
        assert(super::token::toks(ts@).take(i + 1).last() == ts@[i as int]@);
        match ts[i].as_str() {
            Some(s) => {
                let v = to_vec(s);
                let ghost before = crate::bytes::views(out@);
                out.push(v);
                assert(crate::bytes::views(out@) =~= before.push(s@));
            },
            None => {},
        }
        i += 1;
    }
    assert(super::token::toks(ts@).take(ts@.len() as int) =~= super::token::toks(ts@));
    out
}

/// The strings of the parenthesised group at `open`, and the index after it.
fn read_paren_atoms(args: &[Token], open: usize) -> (r: Result<(Vec<Vec<u8>>, usize), ParseError>)
    ensures
        syntax_err(r),
        match paren_group(super::token::toks(args@), open as int) {
            Some((inner, next)) => r matches Ok((v, n)) && crate::bytes::views(v@) == strs(inner) && n == next,
            None => r matches Err(ParseError::Syntax(_)),
        },
        r matches Ok((_, n)) ==> open < n <= args@.len(),
{
    let (ts, next) = read_paren_tokens(args, open)?;
    Ok((strings_of(ts.as_slice()), next))
}

/// Upper-cased copies.
fn upper_all(v: &Vec<Vec<u8>>) -> (r: Vec<Vec<u8>>)
    ensures
        r@.len() == v@.len(),
        forall|k: int| 0 <= k < v@.len() ==> #[trigger] r@[k]@ == crate::bytes::upper_seq(v@[k]@),
{
    let mut out: Vec<Vec<u8>> = Vec::new();
    let mut i: usize = 0;
    while i < v.len()
        invariant
            i <= v@.len(),
            out@.len() == i,
            forall|k: int| 0 <= k < i ==> #[trigger] out@[k]@ == crate::bytes::upper_seq(v@[k]@),
        decreases v@.len() - i,
    {
        out.push(to_upper(v[i].as_slice()));
        i += 1;
    }
    out
}

/// Flags parsed from flag tokens.
fn flags_of(v: &Vec<Vec<u8>>) -> (r: Vec<Flag>)
    ensures
        r@.len() == v@.len(),
        forall|k: int| 0 <= k < v@.len() ==> crate::store::flag_of(v@[k]@, #[trigger] r@[k]),
{
    let mut out: Vec<Flag> = Vec::new();
    let mut i: usize = 0;
    while i < v.len()
        invariant
            i <= v@.len(),
            out@.len() == i,
            forall|k: int| 0 <= k < i ==> crate::store::flag_of(v@[k]@, #[trigger] out@[k]),
        decreases v@.len() - i,
    {
        out.push(Flag::parse_bytes(v[i].as_slice()));
        i += 1;
    }
    out
}

// ---------------------------------------------------------------------------------------------
// Command parsing
// ---------------------------------------------------------------------------------------------

/// A parse that fails fails with a syntax error.
pub open spec fn syntax_err<T>(r: Result<T, ParseError>) -> bool {
    r matches Err(e) ==> e is Syntax
}

/// The verbs the parser knows.
pub open spec fn known_verb(n: Seq<u8>) -> bool {
    ||| is_name(n, "CAPABILITY") ||| is_name(n, "NOOP") ||| is_name(n, "LOGOUT")
    ||| is_name(n, "STARTTLS") ||| is_name(n, "CHECK") ||| is_name(n, "CLOSE")
    ||| is_name(n, "UNSELECT") ||| is_name(n, "IDLE") ||| is_name(n, "NAMESPACE")
    ||| is_name(n, "EXPUNGE") ||| is_name(n, "ENABLE") ||| is_name(n, "LOGIN")
    ||| is_name(n, "AUTHENTICATE") ||| is_name(n, "SELECT") ||| is_name(n, "EXAMINE")
    ||| is_name(n, "CREATE") ||| is_name(n, "DELETE") ||| is_name(n, "RENAME")
    ||| is_name(n, "SUBSCRIBE") ||| is_name(n, "UNSUBSCRIBE") ||| is_name(n, "LIST")
    ||| is_name(n, "LSUB") ||| is_name(n, "STATUS") ||| is_name(n, "APPEND")
    ||| is_name(n, "ID") ||| is_name(n, "SEARCH") ||| is_name(n, "SORT")
    ||| is_name(n, "THREAD") ||| is_name(n, "FETCH") ||| is_name(n, "STORE")
    ||| is_name(n, "COPY") ||| is_name(n, "MOVE") ||| is_name(n, "UID")
}

/// A known verb fails only with a syntax error; any other verb is an unknown command.
pub open spec fn body_spec(n: Seq<u8>, a: Seq<super::token::Tok>, r: Result<Command, ParseError>) -> bool {
    &&& body_shape(n, a, r)
    &&& known_verb(n) ==> syntax_err(r)
}

/// What a command verb `n` with arguments `a` parses to (its shape and, for the commands made
/// of plain arguments, its exact fields).
pub open spec fn body_shape(n: Seq<u8>, a: Seq<super::token::Tok>, r: Result<Command, ParseError>) -> bool {
    if is_name(n, "CAPABILITY") {
        r matches Ok(Command::Capability)
    } else if is_name(n, "NOOP") {
        r matches Ok(Command::Noop)
    } else if is_name(n, "LOGOUT") {
        r matches Ok(Command::Logout)
    } else if is_name(n, "STARTTLS") {
        r matches Ok(Command::StartTls)
    } else if is_name(n, "CHECK") {
        r matches Ok(Command::Check)
    } else if is_name(n, "CLOSE") {
        r matches Ok(Command::Close)
    } else if is_name(n, "UNSELECT") {
        r matches Ok(Command::Unselect)
    } else if is_name(n, "IDLE") {
        r matches Ok(Command::Idle)
    } else if is_name(n, "NAMESPACE") {
        r matches Ok(Command::Namespace)
    } else if is_name(n, "EXPUNGE") {
        r matches Ok(Command::Expunge)
    } else if is_name(n, "ENABLE") {
        r matches Ok(Command::Enable(caps)) && crate::bytes::views(caps@) == strs(a)
    } else if is_name(n, "LOGIN") {
        match (str_at(a, 0), str_at(a, 1)) {
            (Some(u), Some(p)) => r matches Ok(Command::Login { user, pass }) && user@ == u && pass@ == p,
            _ => r matches Err(ParseError::Syntax(_)),
        }
    } else if is_name(n, "AUTHENTICATE") {
        match str_at(a, 0) {
            Some(m) => r matches Ok(Command::Authenticate { mechanism, initial }) && mechanism@ == m
                && (match str_at(a, 1) {
                    Some(x) => initial matches Some(i) && i@ == x,
                    None => initial is None,
                }),
            None => r matches Err(ParseError::Syntax(_)),
        }
    } else if is_name(n, "SELECT") {
        match str_at(a, 0) {
            Some(m) => r matches Ok(c) ==> c matches Command::Select { mailbox, .. } && mailbox@ == m,
            None => r matches Err(ParseError::Syntax(_)),
        }
    } else if is_name(n, "EXAMINE") {
        match str_at(a, 0) {
            Some(m) => r matches Ok(c) ==> c matches Command::Examine { mailbox, .. } && mailbox@ == m,
            None => r matches Err(ParseError::Syntax(_)),
        }
    } else if is_name(n, "CREATE") {
        match str_at(a, 0) {
            Some(m) => r matches Ok(c) ==> c matches Command::Create { name, .. } && name@ == m,
            None => r matches Err(ParseError::Syntax(_)),
        }
    } else if is_name(n, "DELETE") {
        match str_at(a, 0) {
            Some(m) => r matches Ok(Command::Delete(x)) && x@ == m,
            None => r matches Err(ParseError::Syntax(_)),
        }
    } else if is_name(n, "RENAME") {
        match (str_at(a, 0), str_at(a, 1)) {
            (Some(f), Some(t)) => r matches Ok(Command::Rename { from, to }) && from@ == f && to@ == t,
            _ => r matches Err(ParseError::Syntax(_)),
        }
    } else if is_name(n, "SUBSCRIBE") {
        match str_at(a, 0) {
            Some(m) => r matches Ok(Command::Subscribe(x)) && x@ == m,
            None => r matches Err(ParseError::Syntax(_)),
        }
    } else if is_name(n, "UNSUBSCRIBE") {
        match str_at(a, 0) {
            Some(m) => r matches Ok(Command::Unsubscribe(x)) && x@ == m,
            None => r matches Err(ParseError::Syntax(_)),
        }
    } else if is_name(n, "LIST") {
        r matches Ok(c) ==> c is List
    } else if is_name(n, "LSUB") {
        match (str_at(a, 0), str_at(a, 1)) {
            (Some(f), Some(p)) => r matches Ok(Command::Lsub { reference, pattern }) && reference@ == f && pattern@ == p,
            _ => r matches Err(ParseError::Syntax(_)),
        }
    } else if is_name(n, "STATUS") {
        status_spec(a, r)
    } else if is_name(n, "APPEND") {
        append_spec(a, r)
    } else if is_name(n, "ID") {
        r matches Ok(c) ==> c is Id
    } else if is_name(n, "SEARCH") {
        r matches Ok(c) ==> c matches Command::Search { uid, .. } && !uid
    } else if is_name(n, "SORT") {
        r matches Ok(c) ==> c matches Command::Sort { uid, criteria, .. } && !uid && criteria@.len() > 0
    } else if is_name(n, "THREAD") {
        r matches Ok(c) ==> c matches Command::Thread { uid, .. } && !uid
    } else if is_name(n, "FETCH") {
        fetch_spec(a, false, r)
    } else if is_name(n, "STORE") {
        store_cmd_spec(a, false, r)
    } else if is_name(n, "COPY") {
        copy_move_spec(a, false, false, r)
    } else if is_name(n, "MOVE") {
        copy_move_spec(a, false, true, r)
    } else if is_name(n, "UID") {
        uid_spec(a, r)
    } else {
        r matches Err(ParseError::UnknownCommand(u)) && u@ == crate::bytes::upper_seq(n)
    }
}

/// `UID` and a sub-command: FETCH, STORE, COPY, MOVE and EXPUNGE exactly as without the prefix
/// but with `uid` set; SEARCH, SORT and THREAD as a command of their kind with `uid` set; any
/// other sub-command, or none, is a syntax error.
pub open spec fn uid_spec(a: Seq<super::token::Tok>, r: Result<Command, ParseError>) -> bool {
    match str_at(a, 0) {
        None => r matches Err(ParseError::Syntax(_)),
        Some(s) => {
            let rest = a.skip(1);
            if is_name(s, "FETCH") {
                fetch_spec(rest, true, r)
            } else if is_name(s, "STORE") {
                store_cmd_spec(rest, true, r)
            } else if is_name(s, "SEARCH") {
                r matches Ok(c) ==> c matches Command::Search { uid, .. } && uid
            } else if is_name(s, "SORT") {
                r matches Ok(c) ==> c matches Command::Sort { uid, .. } && uid
            } else if is_name(s, "THREAD") {
                r matches Ok(c) ==> c matches Command::Thread { uid, .. } && uid
            } else if is_name(s, "COPY") {
                copy_move_spec(rest, true, false, r)
            } else if is_name(s, "MOVE") {
                copy_move_spec(rest, true, true, r)
            } else if is_name(s, "EXPUNGE") {
                match str_at(rest, 0) {
                    Some(x) => match super::sequence::parse_spec(x) {
                        Some(sv) => r matches Ok(Command::UidExpunge(set)) && set@ == sv,
                        None => r matches Err(ParseError::Syntax(_)),
                    },
                    None => r matches Err(ParseError::Syntax(_)),
                }
            } else {
                r matches Err(ParseError::Syntax(_))
            }
        },
    }
}

/// The commands a `UID` prefix produces, all carrying `uid = true`.
pub open spec fn uid_variant(c: Command) -> bool {
    match c {
        Command::Fetch { uid, .. } => uid,
        Command::Store(s) => s.uid,
        Command::Search { uid, .. } => uid,
        Command::Sort { uid, .. } => uid,
        Command::Thread { uid, .. } => uid,
        Command::Copy { uid, .. } => uid,
        Command::Move { uid, .. } => uid,
        Command::UidExpunge(_) => true,
        _ => false,
    }
}

/// COPY / MOVE: `sequence-set mailbox`.
pub open spec fn copy_move_spec(a: Seq<super::token::Tok>, uid: bool, is_move: bool, r: Result<Command, ParseError>) -> bool {
    match (str_at(a, 0), str_at(a, 1)) {
        (Some(s), Some(m)) => match super::sequence::parse_spec(s) {
            Some(sv) => if is_move {
                r matches Ok(Command::Move { set, mailbox, uid: u }) && set@ == sv && mailbox@ == m && u == uid
            } else {
                r matches Ok(Command::Copy { set, mailbox, uid: u }) && set@ == sv && mailbox@ == m && u == uid
            },
            None => r matches Err(ParseError::Syntax(_)),
        },
        (Some(s), None) => match super::sequence::parse_spec(s) {
            Some(_) => r matches Err(ParseError::Syntax(_)),
            None => r matches Err(ParseError::Syntax(_)),
        },
        _ => r matches Err(ParseError::Syntax(_)),
    }
}

/// The sequence set at `i`.
fn set_at(args: &[Token], i: usize) -> (r: Result<SequenceSet, ParseError>)
    ensures
        syntax_err(r),
        match str_at(super::token::toks(args@), i as int) {
            Some(s) => match super::sequence::parse_spec(s) {
                Some(sv) => r matches Ok(set) && set@ == sv,
                None => r matches Err(ParseError::Syntax(_)),
            },
            None => r matches Err(ParseError::Syntax(_)),
        },
{
    let s = atom_at(args, i)?;
    match SequenceSet::parse_bytes(s.as_slice()) {
        Some(set) => Ok(set),
        None => Err(ParseError::Syntax("bad sequence set")),
    }
}

fn parse_copy_move(args: &[Token], uid: bool, is_move: bool) -> (r: Result<Command, ParseError>)
    ensures
        syntax_err(r),
        copy_move_spec(super::token::toks(args@), uid, is_move, r),
{
    let set = set_at(args, 0)?;
    let mailbox = atom_at(args, 1)?;
    Ok(if is_move {
        Command::Move { set, mailbox, uid }
    } else {
        Command::Copy { set, mailbox, uid }
    })
}

/// STATUS: `mailbox (items…)`, the item names upper-cased.
pub open spec fn status_spec(a: Seq<super::token::Tok>, r: Result<Command, ParseError>) -> bool {
    match (str_at(a, 0), paren_group(a, 1)) {
        (Some(m), Some((inner, _))) => r matches Ok(Command::Status { mailbox, items }) && mailbox@ == m
            && items@.len() == strs(inner).len()
            && forall|k: int| 0 <= k < items@.len() ==> #[trigger] items@[k]@ == crate::bytes::upper_seq(strs(inner)[k]),
        _ => r matches Err(ParseError::Syntax(_)),
    }
}

fn parse_status(args: &[Token]) -> (r: Result<Command, ParseError>)
    ensures
        syntax_err(r),
        status_spec(super::token::toks(args@), r),
{
    let mailbox = atom_at(args, 0)?;
    let (items, _n) = read_paren_atoms(args, 1)?;
    let up = upper_all(&items);
    Ok(Command::Status { mailbox, items: up })
}


/// Whether `t` is an atom or quoted string equal (ignoring ASCII case) to `kw`.
fn tok_is(t: &Token, kw: &str) -> (r: bool)
    ensures
        r == (super::token::tok_str(t@) matches Some(s) && is_name(s, kw)),
{
    match t.as_str() {
        Some(s) => is_kw(s, kw),
        None => false,
    }
}

/// Whether `t` is an atom equal (ignoring ASCII case) to `kw`.
fn atom_is(t: &Token, kw: &str) -> (r: bool)
    ensures
        r == (t@ matches super::token::Tok::Atom(s) && is_name(s, kw)),
{
    match t {
        Token::Atom(s) => is_kw(s.as_slice(), kw),
        _ => false,
    }
}

fn is_lparen_at(args: &[Token], i: usize) -> (r: bool)
    ensures
        r == (i < args@.len() && args@[i as int]@ == super::token::Tok::LParen),
{
    if i < args.len() {
        match &args[i] {
            Token::LParen => true,
            _ => false,
        }
    } else {
        false
    }
}

/// `a[min(i, len)..]`.
fn tail_from(args: &[Token], i: usize) -> (r: &[Token])
    ensures
        i <= args@.len() ==> r@ == args@.skip(i as int),
        i > args@.len() ==> r@.len() == 0,
{
    let n = args.len();
    let s = if i < n { i } else { n };
    toks_range(args, s, n)
}

/// A `<start.count>` partial fetch suffix.
pub open spec fn partial_spec(a: Seq<u8>) -> Option<(u32, u32)> {
    if a.len() >= 2 && a[0] == 60 && a.last() == 62 {
        let inner = a.subrange(1, a.len() - 1);
        if exists|i: int| crate::bytes::first_at(inner, 46, i) {
            let i = choose|i: int| crate::bytes::first_at(inner, 46, i);
            match (crate::bytes::parse_dec_spec(inner.take(i), u32::MAX as nat), crate::bytes::parse_dec_spec(inner.skip(i + 1), u32::MAX as nat)) {
                (Some(x), Some(y)) => Some((x as u32, y as u32)),
                _ => None,
            }
        } else {
            None
        }
    } else {
        None
    }
}

/// Parse a `<start.count>` partial suffix.
pub fn parse_partial(a: &[u8]) -> (r: Option<(u32, u32)>)
    ensures
        r == partial_spec(a@),
{
    let n = a.len();
    if n < 2 || a[0] != 60 || a[n - 1] != 62 {
        return None;
    }
    let inner = slice_of(a, 1, n - 1);
    let m = inner.len();
    match crate::bytes::find_byte(inner, 46) {
        Some(i) => {
            proof {
                let j = choose|j: int| crate::bytes::first_at(inner@, 46, j);
                if j < i {
                } else if j > i {
                }
                assert(inner@.take(i as int) =~= inner@.subrange(0, i as int));
                assert(inner@.skip(i + 1) =~= inner@.subrange(i + 1, m as int));
            }
            let x = parse_u32(slice_of(inner, 0, i));
            let y = parse_u32(slice_of(inner, i + 1, m));
            match (x, y) {
                (Some(x), Some(y)) => Some((x, y)),
                _ => None,
            }
        },
        None => None,
    }
}

/// The FETCH macros ALL, FAST and FULL (RFC 9051 §6.4.5).
pub fn expand_fetch_macro(atom: &[u8]) -> (r: Option<Vec<FetchItem>>)
    ensures
        match macro_items(atom@) {
            Some(items) => r matches Some(v) && v@ == items,
            None => r is None,
        },
        r is Some <==> (is_name(atom@, "ALL") || is_name(atom@, "FAST") || is_name(atom@, "FULL")),
        r matches Some(v) ==> v@.len() >= 3 && v@[0] == FetchItem::Flags && v@[1] == FetchItem::InternalDate
            && v@[2] == FetchItem::Rfc822Size,
        r matches Some(v) ==> (is_name(atom@, "ALL") ==> v@ == seq![FetchItem::Flags, FetchItem::InternalDate, FetchItem::Rfc822Size, FetchItem::Envelope]),
        r matches Some(v) ==> (!is_name(atom@, "ALL") && is_name(atom@, "FAST") ==> v@ == seq![FetchItem::Flags, FetchItem::InternalDate, FetchItem::Rfc822Size]),
        r matches Some(v) ==> (!is_name(atom@, "ALL") && !is_name(atom@, "FAST") ==> v@ == seq![FetchItem::Flags, FetchItem::InternalDate, FetchItem::Rfc822Size, FetchItem::Envelope, FetchItem::Body]),
{
    if is_kw(atom, "ALL") {
        let v = vec![FetchItem::Flags, FetchItem::InternalDate, FetchItem::Rfc822Size, FetchItem::Envelope];
        assert(v@ =~= seq![FetchItem::Flags, FetchItem::InternalDate, FetchItem::Rfc822Size, FetchItem::Envelope]);
        Some(v)
    } else if is_kw(atom, "FAST") {
        let v = vec![FetchItem::Flags, FetchItem::InternalDate, FetchItem::Rfc822Size];
        assert(v@ =~= seq![FetchItem::Flags, FetchItem::InternalDate, FetchItem::Rfc822Size]);
        Some(v)
    } else if is_kw(atom, "FULL") {
        let v = vec![FetchItem::Flags, FetchItem::InternalDate, FetchItem::Rfc822Size, FetchItem::Envelope, FetchItem::Body];
        assert(v@ =~= seq![FetchItem::Flags, FetchItem::InternalDate, FetchItem::Rfc822Size, FetchItem::Envelope, FetchItem::Body]);
        Some(v)
    } else {
        None
    }
}

/// The header-field names of `HEADER.FIELDS (…)`: the strings inside the leading parenthesised
/// group, or of all the tokens when there is none.
pub open spec fn field_list_spec(t: Seq<super::token::Tok>) -> Option<Seq<Seq<u8>>> {
    if t.len() > 0 && t[0] == super::token::Tok::LParen {
        match paren_close(t, 0) {
            Some(k) => Some(strs(t.subrange(1, k))),
            None => None,
        }
    } else {
        Some(strs(t))
    }
}

fn section_field_list(toks: &[Token]) -> (r: Result<Vec<Vec<u8>>, ParseError>)
    ensures
        syntax_err(r),
        match field_list_spec(super::token::toks(toks@)) {
            Some(fs) => r matches Ok(v) && crate::bytes::views(v@) == fs,
            None => r matches Err(ParseError::Syntax(_)),
        },
{
    let _n = toks.len();
    proof {
        if toks@.len() > 0 {
            assert(super::token::toks(toks@)[0] == toks@[0]@);
        }
    }
    if is_lparen_at(toks, 0) {
        match matching(toks, 0, false) {
            Some(end) => {
                let ghost t = super::token::toks(toks@);
                assert(t.len() > 0 && t[0] == super::token::Tok::LParen);
                assert(paren_close(t, 0) == Some(end as int));
                let inner = toks_range(toks, 1, end);
                let v = strings_of(inner);
                assert(field_list_spec(t) == Some(strs(t.subrange(1, end as int))));
                Ok(v)
            },
            None => Err(ParseError::Syntax("unbalanced parentheses")),
        }
    } else {
        Ok(strings_of(toks))
    }
}

/// The numbers of a dotted part path, skipping segments that are not numbers.
pub open spec fn path_nums(segs: Seq<Seq<u8>>) -> Seq<u32>
    decreases segs.len(),
{
    if segs.len() == 0 {
        seq![]
    } else {
        let rest = path_nums(segs.drop_last());
        if is_name(segs.last(), "MIME") {
            rest
        } else {
            match crate::bytes::parse_dec_spec(segs.last(), u32::MAX as nat) {
                Some(n) => rest.push(n as u32),
                None => rest,
            }
        }
    }
}

/// Whether some segment is `MIME`.
pub open spec fn has_mime(segs: Seq<Seq<u8>>) -> bool {
    exists|k: int| 0 <= k < segs.len() && is_name(#[trigger] segs[k], "MIME")
}

/// A body section: `[]`, `HEADER`, `TEXT`, `HEADER.FIELDS (…)`, `HEADER.FIELDS.NOT (…)`, or a
/// dotted part path starting with a digit (`1.2`, `1.2.MIME`).
pub open spec fn section_ok(t: Seq<super::token::Tok>, r: Result<Section, ParseError>) -> bool {
    if t.len() == 0 {
        r == Ok::<Section, ParseError>(Section::Full)
    } else {
        let first = match super::token::tok_str(t[0]) { Some(s) => s, None => seq![] };
        if is_name(first, "HEADER") {
            r == Ok::<Section, ParseError>(Section::Header)
        } else if is_name(first, "TEXT") {
            r == Ok::<Section, ParseError>(Section::Text)
        } else if is_name(first, "HEADER.FIELDS") {
            match field_list_spec(t.drop_first()) {
                Some(fs) => r matches Ok(Section::HeaderFields(v)) && crate::bytes::views(v@) == fs,
                None => r is Err,
            }
        } else if is_name(first, "HEADER.FIELDS.NOT") {
            match field_list_spec(t.drop_first()) {
                Some(fs) => r matches Ok(Section::HeaderFieldsNot(v)) && crate::bytes::views(v@) == fs,
                None => r is Err,
            }
        } else if first.len() > 0 && crate::bytes::is_digit(first[0]) {
            let segs = crate::bytes::split_spec(first, 46);
            if has_mime(segs) {
                r matches Ok(Section::PartMime(p)) && p@ == path_nums(segs)
            } else {
                r matches Ok(Section::Part(p)) && p@ == path_nums(segs)
            }
        } else {
            r matches Err(ParseError::Syntax(_))
        }
    }
}

/// The numbers of a dotted path, and whether it names the MIME header.
fn part_path(first: &[u8]) -> (r: (Vec<u32>, bool))
    ensures
        r.0@ == path_nums(crate::bytes::split_spec(first@, 46)),
        r.1 == has_mime(crate::bytes::split_spec(first@, 46)),
{
    let segs = crate::bytes::split_on(first, 46);
    let ghost sv = crate::bytes::views(segs@);
    let mut nums: Vec<u32> = Vec::new();
    let mut mime = false;
    let mut i: usize = 0;
    while i < segs.len()
        invariant
            i <= segs@.len(),
            sv == crate::bytes::views(segs@),
            sv == crate::bytes::split_spec(first@, 46),
            nums@ == path_nums(sv.take(i as int)),
            mime == has_mime(sv.take(i as int)),
        decreases segs@.len() - i,
    {
        assert(sv.take(i + 1).drop_last() =~= sv.take(i as int));
        assert(sv.take(i + 1).last() == segs@[i as int]@);
        let seg = segs[i].as_slice();
        if is_kw(seg, "MIME") {
            mime = true;
            assert(is_name(sv.take(i + 1)[i as int], "MIME"));
        } else {
            match parse_u32(seg) {
                Some(n) => nums.push(n),
                None => {},
            }
            proof {
                if has_mime(sv.take(i + 1)) {
                    let k = choose|k: int| 0 <= k < sv.take(i + 1).len() && is_name(#[trigger] sv.take(i + 1)[k], "MIME");
                    assert(sv.take(i as int)[k] == sv.take(i + 1)[k]);
                }
                if has_mime(sv.take(i as int)) {
                    let k = choose|k: int| 0 <= k < sv.take(i as int).len() && is_name(#[trigger] sv.take(i as int)[k], "MIME");
                    assert(sv.take(i as int)[k] == sv.take(i + 1)[k]);
                }
            }
        }
        proof {
            if mime && !has_mime(sv.take(i as int)) {
                assert(has_mime(sv.take(i + 1)));
            }
            if has_mime(sv.take(i as int)) {
                let k = choose|k: int| 0 <= k < sv.take(i as int).len() && is_name(#[trigger] sv.take(i as int)[k], "MIME");
                assert(sv.take(i as int)[k] == sv.take(i + 1)[k]);
            }
        }
        i += 1;
    }
    assert(sv.take(segs@.len() as int) =~= sv);
    (nums, mime)
}

fn parse_section(toks: &[Token]) -> (r: Result<Section, ParseError>)
    ensures
        syntax_err(r),
        section_ok(super::token::toks(toks@), r),
{
    let ghost t = super::token::toks(toks@);
    if toks.len() == 0 {
        return Ok(Section::Full);
    }
    assert(t[0] == toks@[0]@);
    let first: &[u8] = match toks[0].as_str() {
        Some(s) => s,
        None => &[],
    };
    assert(first@ == (match super::token::tok_str(t[0]) { Some(s) => s, None => seq![] }));
    if is_kw(first, "HEADER") {
        Ok(Section::Header)
    } else if is_kw(first, "TEXT") {
        Ok(Section::Text)
    } else if is_kw(first, "HEADER.FIELDS") {
        let rest = toks_range(toks, 1, toks.len());
        assert(super::token::toks(rest@) =~= t.drop_first());
        Ok(Section::HeaderFields(section_field_list(rest)?))
    } else if is_kw(first, "HEADER.FIELDS.NOT") {
        let rest = toks_range(toks, 1, toks.len());
        assert(super::token::toks(rest@) =~= t.drop_first());
        Ok(Section::HeaderFieldsNot(section_field_list(rest)?))
    } else if first.len() > 0 && first[0] >= 48 && first[0] <= 57 {
        let (nums, mime) = part_path(first);
        if mime {
            Ok(Section::PartMime(nums))
        } else {
            Ok(Section::Part(nums))
        }
    } else {
        Err(ParseError::Syntax("unknown body section"))
    }
}

/// The fetch item a single keyword names (ignoring ASCII case), for the items without a section.
pub open spec fn simple_fetch_spec(n: Seq<u8>) -> Option<FetchItem> {
    if is_name(n, "FLAGS") {
        Some(FetchItem::Flags)
    } else if is_name(n, "UID") {
        Some(FetchItem::Uid)
    } else if is_name(n, "INTERNALDATE") {
        Some(FetchItem::InternalDate)
    } else if is_name(n, "RFC822.SIZE") {
        Some(FetchItem::Rfc822Size)
    } else if is_name(n, "ENVELOPE") {
        Some(FetchItem::Envelope)
    } else if is_name(n, "BODYSTRUCTURE") {
        Some(FetchItem::BodyStructure)
    } else if is_name(n, "RFC822") {
        Some(FetchItem::Rfc822)
    } else if is_name(n, "RFC822.HEADER") {
        Some(FetchItem::Rfc822Header)
    } else if is_name(n, "RFC822.TEXT") {
        Some(FetchItem::Rfc822Text)
    } else if is_name(n, "MODSEQ") {
        Some(FetchItem::ModSeq)
    } else {
        None
    }
}

fn simple_fetch_item(up: &[u8]) -> (r: Option<FetchItem>)
    ensures
        r == simple_fetch_spec(up@),
{
    if is_kw(up, "FLAGS") {
        Some(FetchItem::Flags)
    } else if is_kw(up, "UID") {
        Some(FetchItem::Uid)
    } else if is_kw(up, "INTERNALDATE") {
        Some(FetchItem::InternalDate)
    } else if is_kw(up, "RFC822.SIZE") {
        Some(FetchItem::Rfc822Size)
    } else if is_kw(up, "ENVELOPE") {
        Some(FetchItem::Envelope)
    } else if is_kw(up, "BODYSTRUCTURE") {
        Some(FetchItem::BodyStructure)
    } else if is_kw(up, "RFC822") {
        Some(FetchItem::Rfc822)
    } else if is_kw(up, "RFC822.HEADER") {
        Some(FetchItem::Rfc822Header)
    } else if is_kw(up, "RFC822.TEXT") {
        Some(FetchItem::Rfc822Text)
    } else if is_kw(up, "MODSEQ") {
        Some(FetchItem::ModSeq)
    } else {
        None
    }
}

/// The optional `<start.count>` atom at `i`: the partial and the tokens it used.
fn partial_at(toks: &[Token], i: usize) -> (r: (Option<(u32, u32)>, usize))
    ensures
        r.1 <= 1,
        r.1 == 1 ==> i < toks@.len(),
        r == (if i < toks@.len() {
            match toks@[i as int]@ {
                super::token::Tok::Atom(a) => match partial_spec(a) {
                    Some(p) => (Some(p), 1usize),
                    None => (None, 0usize),
                },
                _ => (None, 0usize),
            }
        } else {
            (None, 0usize)
        }),
{
    if i < toks.len() {
        match &toks[i] {
            Token::Atom(a) => match parse_partial(a.as_slice()) {
                Some(p) => (Some(p), 1),
                None => (None, 0),
            },
            _ => (None, 0),
        }
    } else {
        (None, 0)
    }
}

/// The optional `<start.count>` atom at `i` and the number of tokens it takes.
pub open spec fn partial_at_spec(t: Seq<super::token::Tok>, i: int) -> (Option<(u32, u32)>, int) {
    if 0 <= i < t.len() {
        match t[i] {
            super::token::Tok::Atom(a) => match partial_spec(a) {
                Some(p) => (Some(p), 1),
                None => (None, 0),
            },
            _ => (None, 0),
        }
    } else {
        (None, 0)
    }
}

/// A BINARY item: BINARY.SIZE takes the part path in brackets; BINARY and BINARY.PEEK also an
/// optional partial, PEEK as written; the section must be a part path (or empty).
pub open spec fn binary_item_ok(t: Seq<super::token::Tok>, h: Seq<u8>, end: int, item: FetchItem, n: usize) -> bool {
    let path = match item {
        FetchItem::Binary { section, .. } => section@,
        FetchItem::BinarySize { section } => section@,
        _ => seq![],
    };
    &&& exists|sec: Section| #[trigger] section_ok(t.subrange(2, end), Ok(sec)) && match sec {
        Section::Part(p) => path == p@,
        Section::Full => path.len() == 0,
        _ => false,
    }
    &&& if is_name(h, "BINARY.SIZE") {
        item is BinarySize && n == end + 1
    } else {
        item matches FetchItem::Binary { peek, partial, .. } && peek == is_name(h, "BINARY.PEEK") && (partial, n - end
            - 1) == partial_at_spec(t, end + 1)
    }
}

/// Whether a token is `[`.
pub open spec fn is_lbracket_at(t: Seq<super::token::Tok>, i: int) -> bool {
    0 <= i < t.len() && t[i] == super::token::Tok::LBracket
}

/// What the fetch-att at the front of `t` parses to, for the items named by one keyword: an
/// item without a section takes one token, BODY or BODY.PEEK without a `[` is the BODY item,
/// and anything but an atom or string, or an unknown name, fails. (The BODY[...] and BINARY[...]
/// forms go through the section parser.)
pub open spec fn one_fetch_att_spec(t: Seq<super::token::Tok>, r: Result<(FetchItem, usize), ParseError>) -> bool {
    t.len() > 0 ==> match super::token::tok_str(t[0]) {
        None => r is Err,
        Some(h) => match simple_fetch_spec(h) {
            Some(it) => r == Ok::<(FetchItem, usize), ParseError>((it, 1)),
            None => if is_name(h, "BINARY") || is_name(h, "BINARY.PEEK") || is_name(h, "BINARY.SIZE") {
                if !is_lbracket_at(t, 1) {
                    r is Err
                } else {
                    match close_from(t, 1, 0, super::token::Tok::LBracket, super::token::Tok::RBracket) {
                        None => r is Err,
                        Some(end) => match r {
                            Ok((item, n)) => binary_item_ok(t, h, end, item, n),
                            Err(e) => section_ok(t.subrange(2, end), Err(e)) || exists|sec: Section|
                                #[trigger] section_ok(t.subrange(2, end), Ok(sec)) && !(sec is Part) && !(sec is Full),
                        },
                    }
                }
            } else if is_name(h, "BODY") || is_name(h, "BODY.PEEK") {
                if !is_lbracket_at(t, 1) {
                    r == Ok::<(FetchItem, usize), ParseError>((FetchItem::Body, 1))
                } else {
                    match close_from(t, 1, 0, super::token::Tok::LBracket, super::token::Tok::RBracket) {
                        None => r is Err,
                        Some(end) => match r {
                            Ok((item, n)) => item matches FetchItem::BodySection { peek, section, partial } && peek
                                == is_name(h, "BODY.PEEK") && section_ok(t.subrange(2, end), Ok(section)) && (partial, n
                                - end - 1) == partial_at_spec(t, end + 1),
                            Err(e) => section_ok(t.subrange(2, end), Err(e)),
                        },
                    }
                }
            } else {
                r is Err
            },
        },
    }
}


/// The tokens inside the group opening at `i` (empty when there is none).
pub open spec fn group_inner(t: Seq<super::token::Tok>, i: int) -> Seq<super::token::Tok> {
    match paren_group(t, i) {
        Some((inner, _)) => inner,
        None => seq![],
    }
}

/// The index after the group opening at `i` (`i` when there is none).
pub open spec fn group_next(t: Seq<super::token::Tok>, i: int) -> int {
    match paren_group(t, i) {
        Some((_, n)) => n,
        None => i,
    }
}

/// LIST `[(select-opts)] reference pattern [RETURN (return-opts)]` (RFC 5258): each part as
/// written; a missing reference or pattern, or an unbalanced option list, fails.
pub open spec fn list_spec(t: Seq<super::token::Tok>, r: Result<Command, ParseError>) -> bool {
    let lead = t.len() > 0 && t[0] == super::token::Tok::LParen;
    if lead && paren_group(t, 0) is None {
        r is Err
    } else {
        let sel = if lead { strs(group_inner(t, 0)) } else { seq![] };
        let i = if lead { group_next(t, 0) } else { 0 };
        match (str_at(t, i), str_at(t, i + 1)) {
            (Some(rf), Some(pat)) => {
                let has_ret = i + 2 < t.len() && (t[i + 2] matches super::token::Tok::Atom(a) && is_name(a, "RETURN"));
                if has_ret && paren_group(t, i + 3) is None {
                    r is Err
                } else {
                    r matches Ok(Command::List { reference, pattern, return_opts, select_opts }) && reference@ == rf
                        && pattern@ == pat && crate::bytes::views(select_opts@) == sel && crate::bytes::views(return_opts@) == (
                    if has_ret {
                        strs(group_inner(t, i + 3))
                    } else {
                        seq![]
                    })
                }
            },
            _ => r is Err,
        }
    }
}

/// The SORT criteria a list of keywords gives: REVERSE applies to the next key; `None` on an
/// unknown key.
pub open spec fn criteria_spec(a: Seq<Seq<u8>>, reverse: bool) -> Option<Seq<SortCriterion>>
    decreases a.len(),
{
    if a.len() == 0 {
        Some(seq![])
    } else if is_name(a[0], "REVERSE") {
        criteria_spec(a.drop_first(), true)
    } else {
        match (sort_key_spec(a[0]), criteria_spec(a.drop_first(), false)) {
            (Some(k), Some(rest)) => Some(seq![SortCriterion { reverse, key: k }] + rest),
            _ => None,
        }
    }
}

/// SORT `(criteria) charset search-key`: the criteria as listed (at least one), an unknown key
/// or an empty list failing.
pub open spec fn sort_spec(t: Seq<super::token::Tok>, r: Result<Command, ParseError>) -> bool {
    match paren_group(t, 0) {
        None => r is Err,
        Some((inner, _)) => match criteria_spec(strs(inner), false) {
            None => r is Err,
            Some(cs) => if cs.len() == 0 {
                r is Err
            } else {
                r matches Ok(Command::Sort { criteria, .. }) ==> criteria@ == cs
            },
        },
    }
}

/// THREAD `algorithm charset search-key`: ORDEREDSUBJECT or REFERENCES, anything else failing;
/// with nothing after the charset the key is ALL.
pub open spec fn thread_spec(t: Seq<super::token::Tok>, r: Result<Command, ParseError>) -> bool {
    match str_at(t, 0) {
        None => r is Err,
        Some(a) => if is_name(a, "ORDEREDSUBJECT") || is_name(a, "REFERENCES") {
            (r matches Ok(Command::Thread { algorithm, charset, .. }) ==> algorithm == (if is_name(a, "ORDEREDSUBJECT") {
                ThreadAlgorithm::OrderedSubject
            } else {
                ThreadAlgorithm::References
            }) && ov_bytes(charset) == str_at(t, 1)) && (t.len() <= 2 ==> r matches Ok(
                Command::Thread { key: crate::search::SearchKey::All, .. },
            ))
        } else {
            r is Err
        },
    }
}

/// An optional byte string by its view.
pub open spec fn ov_bytes(o: Option<Vec<u8>>) -> Option<Seq<u8>> {
    match o {
        Some(v) => Some(v@),
        None => None,
    }
}

/// ID `NIL` or `(field value ...)`: NIL or anything but a list is no parameters; a list gives its
/// fields and values pairwise; an unbalanced list fails.
pub open spec fn id_spec(t: Seq<super::token::Tok>, r: Result<Command, ParseError>) -> bool {
    if t.len() > 0 && (t[0] matches super::token::Tok::Atom(a) && is_name(a, "NIL")) {
        r matches Ok(Command::Id(None))
    } else if t.len() > 0 && t[0] == super::token::Tok::LParen {
        match paren_group(t, 0) {
            None => r is Err,
            Some((inner, _)) => r matches Ok(Command::Id(Some(kv))) && kv@.len() <= inner.len() / 2,
        }
    } else {
        r matches Ok(Command::Id(None))
    }
}

/// SEARCH `[RETURN (opts)] [CHARSET name] search-key`: the options upper-cased, the charset
/// as written; an empty command searches ALL.
pub open spec fn search_cmd_spec(t: Seq<super::token::Tok>, r: Result<Command, ParseError>) -> bool {
    &&& t.len() == 0 ==> (r matches Ok(Command::Search { charset: None, key: crate::search::SearchKey::All, ret, .. })
        && ret@.len() == 0)
    &&& (t.len() > 0 && (t[0] matches super::token::Tok::Atom(a) && is_name(a, "RETURN")) && paren_group(t, 1) is None) ==> r is Err
    &&& (t.len() > 0 && (t[0] matches super::token::Tok::Atom(a) && is_name(a, "RETURN"))) ==> (r matches Ok(Command::Search { ret, .. })
        ==> ret@.len() == strs(group_inner(t, 1)).len() && forall|k: int| 0 <= k < ret@.len() ==> #[trigger] ret@[k]@
        == crate::bytes::upper_seq(strs(group_inner(t, 1))[k]))
}

/// Parse one fetch-att at the front of `toks`: the item and the number of tokens it used.
fn parse_one_fetch_att(toks: &[Token]) -> (r: Result<(FetchItem, usize), ParseError>)
    ensures
        syntax_err(r),
        r matches Ok((_, n)) ==> 0 < n <= toks@.len(),
        toks@.len() == 0 ==> r is Err,
        one_fetch_att_spec(super::token::toks(toks@), r),
{
    if toks.len() == 0 {
        return Err(ParseError::Syntax("bad fetch item"));
    }
    let head = match toks[0].as_str() {
        Some(h) => h,
        None => return Err(ParseError::Syntax("bad fetch item")),
    };
    if let Some(item) = simple_fetch_item(head) {
        return Ok((item, 1));
    }
    let is_bin = is_kw(head, "BINARY");
    let is_bin_peek = is_kw(head, "BINARY.PEEK");
    let is_bin_size = is_kw(head, "BINARY.SIZE");
    if is_bin || is_bin_peek || is_bin_size {
        if !(toks.len() > 1 && match &toks[1] { Token::LBracket => true, _ => false }) {
            return Err(ParseError::Syntax("BINARY needs a [section]"));
        }
        let end = match matching(toks, 1, true) {
            Some(e) => e,
            None => return Err(ParseError::Syntax("unbalanced brackets")),
        };
        proof {
            lemma_close_from(super::token::toks(toks@), 1, 0, super::token::Tok::LBracket, super::token::Tok::RBracket);
        }
        let section = match parse_section(toks_range(toks, 2, end))? {
            Section::Part(p) => p,
            Section::Full => Vec::new(),
            _ => return Err(ParseError::Syntax("BINARY section must be a part number")),
        };
        if is_bin_size {
            return Ok((FetchItem::BinarySize { section }, end + 1));
        }
        let (partial, used) = partial_at(toks, end + 1);
        return Ok((FetchItem::Binary { peek: is_bin_peek, section, partial }, end + 1 + used));
    }
    let is_body = is_kw(head, "BODY");
    let is_body_peek = is_kw(head, "BODY.PEEK");
    if is_body || is_body_peek {
        if toks.len() > 1 && match &toks[1] { Token::LBracket => true, _ => false } {
            let end = match matching(toks, 1, true) {
                Some(e) => e,
                None => return Err(ParseError::Syntax("unbalanced brackets")),
            };
            proof {
                lemma_close_from(super::token::toks(toks@), 1, 0, super::token::Tok::LBracket, super::token::Tok::RBracket);
            }
            let section = parse_section(toks_range(toks, 2, end))?;
            let (partial, used) = partial_at(toks, end + 1);
            return Ok((FetchItem::BodySection { peek: is_body_peek, section, partial }, end + 1 + used));
        }
        return Ok((FetchItem::Body, 1));
    }
    Err(ParseError::Syntax("unknown fetch item"))
}

/// The items of a list made only of single-keyword items, when it is one.
pub open spec fn simple_items(t: Seq<super::token::Tok>) -> Option<Seq<FetchItem>>
    decreases t.len(),
{
    if t.len() == 0 {
        Some(seq![])
    } else {
        match (simple_items(t.drop_last()), super::token::tok_str(t.last())) {
            (Some(v), Some(h)) => match simple_fetch_spec(h) {
                Some(it) => Some(v.push(it)),
                None => None,
            },
            _ => None,
        }
    }
}

/// The items of a parenthesised fetch-att list, in order. A list made only of items without a
/// section gives exactly those items; an empty list gives none; at most one item per token.
fn parse_fetch_att_list(inner: &[Token]) -> (r: Result<Vec<FetchItem>, ParseError>)
    ensures
        syntax_err(r),
        r matches Ok(v) ==> v@.len() <= inner@.len(),
        simple_items(super::token::toks(inner@)) matches Some(items) ==> r matches Ok(v) && v@ == items,
{
    let ghost t = super::token::toks(inner@);
    let mut out: Vec<FetchItem> = Vec::new();
    let mut i: usize = 0;
    while i < inner.len()
        invariant
            i <= inner@.len(),
            out@.len() <= i,
            t == super::token::toks(inner@),
            simple_items(t) is Some ==> simple_items(t.take(i as int)) == Some(out@),
        decreases inner@.len() - i,
    {
        let rest = toks_range(inner, i, inner.len());
        proof {
            assert(super::token::toks(rest@) =~= t.skip(i as int));
            if simple_items(t) is Some {
                lemma_simple_items_prefix(t, i as int + 1);
                assert(t.take(i + 1).drop_last() =~= t.take(i as int));
                assert(t.take(i + 1).last() == t[i as int]);
            }
        }
        let (item, used) = parse_one_fetch_att(rest)?;
        out.push(item);
        proof {
            if simple_items(t) is Some {
                assert(used == 1);
            }
        }
        i += used;
    }
    proof {
        assert(t.take(i as int) =~= t);
    }
    Ok(out)
}

proof fn lemma_simple_items_prefix(t: Seq<super::token::Tok>, k: int)
    requires
        0 <= k <= t.len(),
        simple_items(t) is Some,
    ensures
        simple_items(t.take(k)) is Some,
    decreases t.len(),
{
    if k < t.len() {
        assert(t.drop_last().take(k) =~= t.take(k));
        lemma_simple_items_prefix(t.drop_last(), k);
    } else {
        assert(t.take(k) =~= t);
    }
}

/// The items a FETCH macro stands for (RFC 9051 §6.4.5).
pub open spec fn macro_items(a: Seq<u8>) -> Option<Seq<FetchItem>> {
    if is_name(a, "ALL") {
        Some(seq![FetchItem::Flags, FetchItem::InternalDate, FetchItem::Rfc822Size, FetchItem::Envelope])
    } else if is_name(a, "FAST") {
        Some(seq![FetchItem::Flags, FetchItem::InternalDate, FetchItem::Rfc822Size])
    } else if is_name(a, "FULL") {
        Some(seq![FetchItem::Flags, FetchItem::InternalDate, FetchItem::Rfc822Size, FetchItem::Envelope, FetchItem::Body])
    } else {
        None
    }
}

/// What the fetch items at `start` parse to: a parenthesised list (ending after its `)`), a
/// macro, or one item. A list of single-keyword items gives exactly those; an unbalanced list,
/// or no atom where one is needed, fails.
pub open spec fn fetch_items_spec(t: Seq<super::token::Tok>, start: int, r: Result<(Vec<FetchItem>, usize), ParseError>) -> bool {
    if 0 <= start < t.len() && t[start] == super::token::Tok::LParen {
        match paren_close(t, start) {
            None => r is Err,
            Some(k) => (r matches Ok((_, n)) ==> n == k + 1) && (simple_items(t.subrange(start + 1, k)) matches Some(items)
                ==> r matches Ok((v, n)) && v@ == items),
        }
    } else {
        match str_at(t, start) {
            None => r is Err,
            Some(a) => match macro_items(a) {
                Some(items) => r matches Ok((v, n)) && v@ == items && n == start + 1,
                None => one_fetch_att_spec(t.skip(start), match r {
                    Ok((v, n)) => if v@.len() == 1 { Ok((v@[0], (n - start) as usize)) } else { Err(ParseError::Empty) },
                    Err(e) => Err(e),
                }),
            },
        }
    }
}

/// The fetch items starting at `start` (a macro, a single item, or a parenthesised list) and
/// the index after them.
fn parse_fetch_items(args: &[Token], start: usize) -> (r: Result<(Vec<FetchItem>, usize), ParseError>)
    ensures
        syntax_err(r),
        r matches Ok((_, n)) ==> start < n <= args@.len(),
        fetch_items_spec(super::token::toks(args@), start as int, r),
{
    let _n = args.len();
    if is_lparen_at(args, start) {
        assert(super::token::toks(args@)[start as int] == args@[start as int]@);
        let end = match matching(args, start, false) {
            Some(e) => e,
            None => return Err(ParseError::Syntax("unbalanced parentheses")),
        };

        let inner = toks_range(args, start + 1, end);
        assert(super::token::toks(inner@) =~= super::token::toks(args@).subrange(start + 1, end as int));
        let items = parse_fetch_att_list(inner)?;
        Ok((items, end + 1))
    } else {
        let atom = atom_at(args, start)?;
        assert(start < args@.len());
        match expand_fetch_macro(atom.as_slice()) {
            Some(items) => Ok((items, start + 1)),
            None => {
                let rest = toks_range(args, start, args.len());
                assert(super::token::toks(rest@) =~= super::token::toks(args@).skip(start as int));
                let (item, used) = parse_one_fetch_att(rest)?;
                let v = vec![item];
                assert(v@ =~= seq![item]);
                Ok((v, start + used))
            },
        }
    }
}

/// The value a modifier keyword `kw` is given in a modifier list, scanning from `j`: the
/// number after the last occurrence (`None` when it does not parse, or the keyword comes last,
/// or never occurs), each keyword consuming the word after it.
pub open spec fn modifier_value_spec(mods: Seq<Vec<u8>>, kw: Seq<u8>, j: int, out: Option<u64>) -> Option<u64>
    decreases mods.len() - j,
{
    if j < 0 || j >= mods.len() {
        out
    } else if crate::bytes::eq_ci_spec(mods[j]@, kw) {
        if j + 1 < mods.len() {
            modifier_value_spec(
                mods,
                kw,
                j + 2,
                match crate::bytes::parse_dec_spec(mods[j + 1]@, u64::MAX as nat) {
                    Some(v) => Some(v as u64),
                    None => None,
                },
            )
        } else {
            None
        }
    } else {
        modifier_value_spec(mods, kw, j + 1, out)
    }
}

/// Whether keyword `kw` occurs in a modifier list, scanning from `j`, where each `valued`
/// keyword consumes the word after it.
pub open spec fn modifier_flag_spec(mods: Seq<Vec<u8>>, kw: Seq<u8>, valued: Seq<u8>, j: int) -> bool
    decreases mods.len() - j,
{
    if j < 0 || j >= mods.len() {
        false
    } else if crate::bytes::eq_ci_spec(mods[j]@, valued) {
        if j + 1 < mods.len() {
            modifier_flag_spec(mods, kw, valued, j + 2)
        } else {
            false
        }
    } else {
        crate::bytes::eq_ci_spec(mods[j]@, kw) || modifier_flag_spec(mods, kw, valued, j + 1)
    }
}

/// The value after a modifier keyword in a parenthesised modifier list.
fn modifier_value(mods: &Vec<Vec<u8>>, kw: &str) -> (r: Option<u64>)
    ensures
        r == modifier_value_spec(mods@, crate::bytes::lit(kw), 0, None),
{
    let mut out: Option<u64> = None;
    let mut j: usize = 0;
    while j < mods.len()
        invariant
            j <= mods@.len(),
            modifier_value_spec(mods@, crate::bytes::lit(kw), j as int, out) == modifier_value_spec(
                mods@,
                crate::bytes::lit(kw),
                0,
                None,
            ),
        decreases mods@.len() - j,
    {
        if is_kw(mods[j].as_slice(), kw) {
            if j + 1 < mods.len() {
                out = parse_u64(mods[j + 1].as_slice());
                j += 2;
            } else {
                out = None;
                j = mods.len();
            }
        } else {
            j += 1;
        }
    }
    out
}

/// Whether a modifier keyword appears in a position not consumed as a CHANGEDSINCE value.
fn modifier_flag(mods: &Vec<Vec<u8>>, kw: &str, valued: &str) -> (r: bool)
    ensures
        r == modifier_flag_spec(mods@, crate::bytes::lit(kw), crate::bytes::lit(valued), 0),
{
    let mut out = false;
    let mut j: usize = 0;
    while j < mods.len()
        invariant
            j <= mods@.len(),
            (out || modifier_flag_spec(mods@, crate::bytes::lit(kw), crate::bytes::lit(valued), j as int))
                == modifier_flag_spec(mods@, crate::bytes::lit(kw), crate::bytes::lit(valued), 0),
        decreases mods@.len() - j,
    {
        if is_kw(mods[j].as_slice(), valued) {
            if j + 1 < mods.len() {
                j += 2;
            } else {
                j = mods.len();
            }
        } else {
            if is_kw(mods[j].as_slice(), kw) {
                out = true;
            }
            j += 1;
        }
    }
    out
}

/// FETCH: `sequence-set items [(CHANGEDSINCE n [VANISHED])]`.
pub open spec fn fetch_spec(a: Seq<super::token::Tok>, uid: bool, r: Result<Command, ParseError>) -> bool {
    match str_at(a, 0) {
        Some(s) => match super::sequence::parse_spec(s) {
            Some(sv) => exists|ir: Result<(Vec<FetchItem>, usize), ParseError>| #[trigger]
                fetch_items_spec(a, 1, ir) && fetch_rest(a, sv, uid, ir, r),
            None => r matches Err(ParseError::Syntax(_)),
        },
        None => r matches Err(ParseError::Syntax(_)),
    }
}

/// FETCH after its sequence set `sv` and items `ir`: an items error is the answer; otherwise
/// the command carries the set and items, and the CHANGEDSINCE value and VANISHED flag of a
/// parenthesised modifier list that follows (none without one; an unclosed list is an error).
pub open spec fn fetch_rest(
    a: Seq<super::token::Tok>,
    sv: (Seq<super::sequence::Range>, bool),
    uid: bool,
    ir: Result<(Vec<FetchItem>, usize), ParseError>,
    r: Result<Command, ParseError>,
) -> bool {
    match ir {
        Err(e) => r == Err::<Command, ParseError>(e),
        Ok((items, next)) => if 0 <= next < a.len() && a[next as int] == super::token::Tok::LParen {
            match paren_group(a, next as int) {
                None => r matches Err(ParseError::Syntax(_)),
                Some((inner, _)) => exists|mods: Seq<Vec<u8>>| #[trigger]
                    crate::bytes::views(mods) == strs(inner) && (r matches Ok(
                        Command::Fetch { set, items: it, uid: u, changedsince, vanished },
                    ) && set@ == sv && it@ == items@ && u == uid && changedsince == modifier_value_spec(
                        mods,
                        crate::bytes::lit("CHANGEDSINCE"),
                        0,
                        None,
                    ) && vanished == modifier_flag_spec(
                        mods,
                        crate::bytes::lit("VANISHED"),
                        crate::bytes::lit("CHANGEDSINCE"),
                        0,
                    )),
            }
        } else {
            r matches Ok(Command::Fetch { set, items: it, uid: u, changedsince, vanished }) && set@ == sv && it@
                == items@ && u == uid && changedsince is None && !vanished
        },
    }
}

fn parse_fetch(args: &[Token], uid: bool) -> (r: Result<Command, ParseError>)
    ensures
        syntax_err(r),
        fetch_spec(super::token::toks(args@), uid, r),
{
    let set = set_at(args, 0)?;
    let (items, next) = parse_fetch_items(args, 1)?;
    let mut changedsince: Option<u64> = None;
    let mut vanished = false;
    if is_lparen_at(args, next) {
        let (mods, _n) = read_paren_atoms(args, next)?;
        changedsince = modifier_value(&mods, "CHANGEDSINCE");
        vanished = modifier_flag(&mods, "VANISHED", "CHANGEDSINCE");
    }
    Ok(Command::Fetch { set, items, uid, changedsince, vanished })
}

/// The operation and silence a STORE verb names (`None` for an unknown verb).
pub open spec fn verb_spec(v: Seq<u8>) -> (StoreOp, bool) {
    if is_name(v, "FLAGS") {
        (StoreOp::Replace, false)
    } else if is_name(v, "FLAGS.SILENT") {
        (StoreOp::Replace, true)
    } else if is_name(v, "+FLAGS") {
        (StoreOp::Add, false)
    } else if is_name(v, "+FLAGS.SILENT") {
        (StoreOp::Add, true)
    } else if is_name(v, "-FLAGS") {
        (StoreOp::Remove, false)
    } else {
        (StoreOp::Remove, true)
    }
}

/// The six STORE verbs.
pub open spec fn store_verb(v: Seq<u8>) -> bool {
    ||| is_name(v, "FLAGS") ||| is_name(v, "FLAGS.SILENT")
    ||| is_name(v, "+FLAGS") ||| is_name(v, "+FLAGS.SILENT")
    ||| is_name(v, "-FLAGS") ||| is_name(v, "-FLAGS.SILENT")
}

/// Flags read one for one from flag names.
pub open spec fn flags_match(names: Seq<Seq<u8>>, fl: Seq<Flag>) -> bool {
    &&& fl.len() == names.len()
    &&& forall|k: int| 0 <= k < names.len() ==> crate::store::flag_of(names[k], #[trigger] fl[k])
}

/// STORE: `sequence-set [(UNCHANGEDSINCE n)] verb flags`, the flags either parenthesised or
/// the remaining arguments.
pub open spec fn store_spec(a: Seq<super::token::Tok>, uid: bool, r: Result<StoreCommand, ParseError>) -> bool {
    match str_at(a, 0) {
        None => r matches Err(ParseError::Syntax(_)),
        Some(s) => match super::sequence::parse_spec(s) {
            None => r matches Err(ParseError::Syntax(_)),
            Some(sv) => {
                let has_mods = 1 < a.len() && a[1] == super::token::Tok::LParen;
                if has_mods && paren_group(a, 1) is None {
                    r matches Err(ParseError::Syntax(_))
                } else {
                    let i = if has_mods { paren_group(a, 1).unwrap().1 } else { 1int };
                    match str_at(a, i) {
                        None => r matches Err(ParseError::Syntax(_)),
                        Some(v) => if !store_verb(v) {
                            r matches Err(ParseError::Syntax(_))
                        } else {
                            let fl_open = i + 1 < a.len() && a[i + 1] == super::token::Tok::LParen;
                            if fl_open && paren_group(a, i + 1) is None {
                                r matches Err(ParseError::Syntax(_))
                            } else {
                                let names = if fl_open {
                                    strs(paren_group(a, i + 1).unwrap().0)
                                } else {
                                    strs(a.skip(i + 1))
                                };
                                &&& r matches Ok(c)
                                &&& r->Ok_0.set@ == sv
                                &&& r->Ok_0.uid == uid
                                &&& (r->Ok_0.op, r->Ok_0.silent) == verb_spec(v)
                                &&& flags_match(names, r->Ok_0.flags@)
                                &&& !has_mods ==> r->Ok_0.unchangedsince is None
                                &&& has_mods ==> exists|m: Seq<Vec<u8>>|
                                    crate::bytes::views(m) == strs(paren_group(a, 1).unwrap().0)
                                        && r->Ok_0.unchangedsince == #[trigger] modifier_value_spec(
                                        m,
                                        crate::bytes::lit("UNCHANGEDSINCE"),
                                        0,
                                        None,
                                    )
                            }
                        },
                    }
                }
            },
        },
    }
}

fn parse_store(args: &[Token], uid: bool) -> (r: Result<StoreCommand, ParseError>)
    ensures
        syntax_err(r),
        store_spec(super::token::toks(args@), uid, r),
{
    let ghost a = super::token::toks(args@);
    let _n = args.len();
    let set = set_at(args, 0)?;
    let mut i: usize = 1;
    let mut unchangedsince: Option<u64> = None;
    let ghost mut m: Seq<Vec<u8>> = Seq::empty();
    if is_lparen_at(args, 1) {
        assert(a[1] == args@[1]@);
        let (mods, ni) = read_paren_atoms(args, 1)?;
        unchangedsince = modifier_value(&mods, "UNCHANGEDSINCE");
        proof {
            m = mods@;
        }
        i = ni;
    } else {
        proof {
            if 1 < a.len() {
                assert(a[1] == args@[1]@);
            }
        }
    }
    let verb = atom_at(args, i)?;
    assert(i < args@.len());
    let v = verb.as_slice();
    let (op, silent) = if is_kw(v, "FLAGS") {
        (StoreOp::Replace, false)
    } else if is_kw(v, "FLAGS.SILENT") {
        (StoreOp::Replace, true)
    } else if is_kw(v, "+FLAGS") {
        (StoreOp::Add, false)
    } else if is_kw(v, "+FLAGS.SILENT") {
        (StoreOp::Add, true)
    } else if is_kw(v, "-FLAGS") {
        (StoreOp::Remove, false)
    } else if is_kw(v, "-FLAGS.SILENT") {
        (StoreOp::Remove, true)
    } else {
        return Err(ParseError::Syntax("bad STORE verb"));
    };
    assert(i + 1 < a.len() ==> a[i + 1] == args@[i + 1]@);
    let flags = if is_lparen_at(args, i + 1) {
        let (fs, _n) = read_paren_atoms(args, i + 1)?;
        flags_of(&fs)
    } else {
        let rest = tail_from(args, i + 1);
        assert(super::token::toks(rest@) =~= a.skip(i + 1));
        let names = strings_of(rest);
        flags_of(&names)
    };
    Ok(StoreCommand { set, op, flags, silent, uid, unchangedsince })
}


/// The optional `(CONDSTORE)` / `(QRESYNC (uidvalidity modseq [known-uids …]))` parameter list
/// after a SELECT/EXAMINE mailbox name (RFC 7162 §3.1 / §3.2.5).
fn parse_select_params(args: &[Token]) -> (r: Result<(Option<QResyncParams>, bool), ParseError>)
    ensures
        syntax_err(r),
        !(args@.len() > 0 && args@[0]@ == super::token::Tok::LParen) ==> r matches Ok((None, false)),
        args@.len() > 0 && args@[0]@ == super::token::Tok::LParen ==> match paren_group(super::token::toks(args@), 0) {
            None => r is Err,
            Some((inner, _)) => inner.len() == 0 ==> r matches Ok((None, false)),
        },
{
    if !is_lparen_at(args, 0) {
        return Ok((None, false));
    }
    assert(super::token::toks(args@)[0] == args@[0]@);
    let (inner, _next) = read_paren_tokens(args, 0)?;
    let mut qresync: Option<QResyncParams> = None;
    let mut condstore = false;
    let mut i: usize = 0;
    while i < inner.len()
        invariant
            i <= inner@.len(),
            args@.len() > 0 && args@[0]@ == super::token::Tok::LParen,
            paren_group(super::token::toks(args@), 0) matches Some((g, _)) && g == super::token::toks(inner@),
            inner@.len() == 0 ==> (!condstore && qresync is None),
        decreases inner@.len() - i,
    {
        if tok_is(&inner[i], "CONDSTORE") {
            condstore = true;
            i += 1;
        } else if tok_is(&inner[i], "QRESYNC") {
            let (q, ni) = read_paren_tokens(inner.as_slice(), i + 1)?;
            let uid_validity = match atom_at(q.as_slice(), 0) {
                Ok(s) => match parse_u32(s.as_slice()) {
                    Some(v) => v,
                    None => return Err(ParseError::Syntax("QRESYNC needs UIDVALIDITY")),
                },
                Err(_) => return Err(ParseError::Syntax("QRESYNC needs UIDVALIDITY")),
            };
            let modseq = match atom_at(q.as_slice(), 1) {
                Ok(s) => match parse_u64(s.as_slice()) {
                    Some(v) => v,
                    None => return Err(ParseError::Syntax("QRESYNC needs modseq")),
                },
                Err(_) => return Err(ParseError::Syntax("QRESYNC needs modseq")),
            };
            let known_uids = match opt_str_at(q.as_slice(), 2) {
                Some(s) => SequenceSet::parse_bytes(s.as_slice()),
                None => None,
            };
            qresync = Some(QResyncParams { uid_validity, modseq, known_uids });
            assert(ni > i);
            i = ni;
        } else {
            i += 1;
        }
    }
    Ok((qresync, condstore))
}

fn parse_list(args: &[Token]) -> (r: Result<Command, ParseError>)
    ensures
        syntax_err(r),
        r matches Ok(c) ==> c is List,
        list_spec(super::token::toks(args@), r),
{
    let _n = args.len();
    let ghost t = super::token::toks(args@);
    let mut i: usize = 0;
    let mut select_opts: Vec<Vec<u8>> = Vec::new();
    assert(crate::bytes::views(select_opts@) =~= Seq::<Seq<u8>>::empty());
    if is_lparen_at(args, 0) {
        assert(t[0] == args@[0]@);
        let (opts, ni) = read_paren_atoms(args, 0)?;
        select_opts = opts;
        i = ni;
    } else {
        assert(!(t.len() > 0 && t[0] == super::token::Tok::LParen)) by {
            if t.len() > 0 {
                assert(t[0] == args@[0]@);
            }
        }
    }
    let reference = atom_at(args, i)?;
    let pattern = atom_at(args, i + 1)?;
    let mut return_opts: Vec<Vec<u8>> = Vec::new();
    assert(crate::bytes::views(return_opts@) =~= Seq::<Seq<u8>>::empty());
    if i + 2 < args.len() && atom_is(&args[i + 2], "RETURN") {
        assert(t[i + 2] == args@[i + 2]@);
        let (opts, _ni) = read_paren_atoms(args, i + 3)?;
        return_opts = opts;
    } else {
        assert(i + 2 < t.len() ==> t[i + 2] == args@[i + 2]@);
    }
    Ok(Command::List { reference, pattern, return_opts, select_opts })
}

/// An atom with the name `w`, in any case.
pub open spec fn atom_named(t: super::token::Tok, w: &str) -> bool {
    match t {
        super::token::Tok::Atom(x) => is_name(x, w),
        _ => false,
    }
}

/// APPEND: `mailbox [(flags)] ["date"] message`, or `mailbox [(flags)] ["date"] CATENATE (parts)`.
pub open spec fn append_spec(a: Seq<super::token::Tok>, r: Result<Command, ParseError>) -> bool {
    match str_at(a, 0) {
        None => r matches Err(ParseError::Syntax(_)),
        Some(mb) => {
            let has_flags = 1 < a.len() && a[1] == super::token::Tok::LParen;
            if has_flags && paren_group(a, 1) is None {
                r matches Err(ParseError::Syntax(_))
            } else {
                let i = if has_flags { paren_group(a, 1).unwrap().1 } else { 1int };
                let fnames = if has_flags { strs(paren_group(a, 1).unwrap().0) } else { seq![] };
                let dated = i < a.len() && a[i] is Quoted;
                let j = if dated { i + 1 } else { i };
                let date_ok = |date: Option<Vec<u8>>|
                    if dated { date matches Some(d) && d@ == a[i]->Quoted_0 } else { date is None };
                if j < a.len() && atom_named(a[j], "CATENATE") {
                    r matches Ok(c) ==> c matches Command::Append { mailbox, flags, date, message, catenate }
                        && mailbox@ == mb && flags_match(fnames, flags@) && date_ok(date)
                        && message@.len() == 0 && catenate is Some
                } else if j < a.len() && super::token::tok_bytes(a[j]) is Some {
                    r matches Ok(Command::Append { mailbox, flags, date, message, catenate })
                        && mailbox@ == mb && flags_match(fnames, flags@) && date_ok(date)
                        && message@ == super::token::tok_bytes(a[j]).unwrap() && catenate is None
                } else {
                    r matches Err(ParseError::Syntax(_))
                }
            }
        },
    }
}

/// STORE as a command.
pub open spec fn store_cmd_spec(a: Seq<super::token::Tok>, uid: bool, r: Result<Command, ParseError>) -> bool {
    match r {
        Ok(Command::Store(sc)) => store_spec(a, uid, Ok(sc)),
        Ok(_) => false,
        Err(e) => store_spec(a, uid, Err(e)),
    }
}

#[verifier::loop_isolation(false)]
fn parse_append(args: &[Token]) -> (r: Result<Command, ParseError>)
    ensures
        syntax_err(r),
        append_spec(super::token::toks(args@), r),
{
    let ghost a = super::token::toks(args@);
    let _n = args.len();
    let mailbox = atom_at(args, 0)?;
    let mut i: usize = 1;
    let mut flags: Vec<Flag> = Vec::new();
    assert(1 < a.len() ==> a[1] == args@[1]@);
    if is_lparen_at(args, 1) {
        let (fs, ni) = read_paren_atoms(args, 1)?;
        flags = flags_of(&fs);
        i = ni;
    }
    let ghost i0 = i;
    let mut date: Option<Vec<u8>> = None;
    if i < args.len() {
        assert(a[i as int] == args@[i as int]@);
        if let Token::Quoted(d) = &args[i] {
            date = Some(to_vec(d.as_slice()));
            i += 1;
        }
    }
    assert(i < a.len() ==> a[i as int] == args@[i as int]@);
    if i < args.len() && atom_is(&args[i], "CATENATE") {
        let (inner, _n2) = read_paren_tokens(args, i + 1)?;
        let mut parts: Vec<CatPart> = Vec::new();
        let mut j: usize = 0;
        while j < inner.len()
            invariant
                j <= inner@.len(),
            decreases inner@.len() - j,
        {
            if tok_is(&inner[j], "TEXT") {
                if j + 1 >= inner.len() {
                    return Err(ParseError::Syntax("CATENATE TEXT needs a literal"));
                }
                match inner[j + 1].as_bytes() {
                    Some(b) => parts.push(CatPart::Text(b)),
                    None => return Err(ParseError::Syntax("CATENATE TEXT needs a literal")),
                }
                j += 2;
            } else if tok_is(&inner[j], "URL") {
                match opt_str_at(inner.as_slice(), j + 1) {
                    Some(u) => parts.push(CatPart::Url(u)),
                    None => return Err(ParseError::Syntax("CATENATE URL needs a string")),
                }
                j += 2;
            } else {
                return Err(ParseError::Syntax("bad CATENATE part"));
            }
        }
        return Ok(Command::Append { mailbox, flags, date, message: Vec::new(), catenate: Some(parts) });
    }
    if i >= args.len() {
        return Err(ParseError::Syntax("APPEND needs a message"));
    }
    let message = match args[i].as_bytes() {
        Some(b) => b,
        None => return Err(ParseError::Syntax("APPEND needs a message")),
    };
    Ok(Command::Append { mailbox, flags, date, message, catenate: None })
}

fn parse_create(args: &[Token]) -> (r: Result<Command, ParseError>)
    ensures
        syntax_err(r),
        match str_at(super::token::toks(args@), 0) {
            Some(m) => r matches Ok(c) ==> c matches Command::Create { name, .. } && name@ == m,
            None => r matches Err(ParseError::Syntax(_)),
        },
{
    let name = atom_at(args, 0)?;
    let mut use_attr: Option<Vec<u8>> = None;
    if is_lparen_at(args, 1) {
        let (inner, _n) = read_paren_tokens(args, 1)?;
        let mut j: usize = 0;
        while j < inner.len()
            invariant
                j <= inner@.len(),
            decreases inner@.len() - j,
        {
            let is_use = tok_is(&inner[j], "USE");
            j += 1;
            if is_use && j < inner.len() {
                let open = match &inner[j] {
                    Token::LParen => true,
                    _ => false,
                };
                j += 1;
                if open {
                    use_attr = opt_str_at(inner.as_slice(), j);
                    if j < inner.len() {
                        j += 1;
                    }
                }
            }
        }
    }
    Ok(Command::Create { name, use_attr })
}

/// The SORT key a keyword names (ignoring ASCII case).
pub open spec fn sort_key_spec(a: Seq<u8>) -> Option<SortKey> {
    if is_name(a, "ARRIVAL") {
        Some(SortKey::Arrival)
    } else if is_name(a, "CC") {
        Some(SortKey::Cc)
    } else if is_name(a, "DATE") {
        Some(SortKey::Date)
    } else if is_name(a, "FROM") {
        Some(SortKey::From)
    } else if is_name(a, "SIZE") {
        Some(SortKey::Size)
    } else if is_name(a, "SUBJECT") {
        Some(SortKey::Subject)
    } else if is_name(a, "TO") {
        Some(SortKey::To)
    } else if is_name(a, "DISPLAYFROM") {
        Some(SortKey::DisplayFrom)
    } else if is_name(a, "DISPLAYTO") {
        Some(SortKey::DisplayTo)
    } else {
        None
    }
}

fn sort_key(a: &[u8]) -> (r: Option<SortKey>)
    ensures
        r == sort_key_spec(a@),
{
    if is_kw(a, "ARRIVAL") {
        Some(SortKey::Arrival)
    } else if is_kw(a, "CC") {
        Some(SortKey::Cc)
    } else if is_kw(a, "DATE") {
        Some(SortKey::Date)
    } else if is_kw(a, "FROM") {
        Some(SortKey::From)
    } else if is_kw(a, "SIZE") {
        Some(SortKey::Size)
    } else if is_kw(a, "SUBJECT") {
        Some(SortKey::Subject)
    } else if is_kw(a, "TO") {
        Some(SortKey::To)
    } else if is_kw(a, "DISPLAYFROM") {
        Some(SortKey::DisplayFrom)
    } else if is_kw(a, "DISPLAYTO") {
        Some(SortKey::DisplayTo)
    } else {
        None
    }
}

fn parse_sort(args: &[Token], uid: bool) -> (r: Result<Command, ParseError>)
    ensures
        syntax_err(r),
        r matches Ok(c) ==> c matches Command::Sort { uid: u, criteria, .. } && u == uid && criteria@.len() > 0,
        sort_spec(super::token::toks(args@), r),
{
    let _n = args.len();
    let (crit_atoms, next) = read_paren_atoms(args, 0)?;
    let ghost names = crate::bytes::views(crit_atoms@);
    let ghost whole = criteria_spec(names, false);
    let mut criteria: Vec<SortCriterion> = Vec::new();
    let mut reverse = false;
    let mut k: usize = 0;
    assert(names.skip(0) =~= names);
    while k < crit_atoms.len()
        invariant
            k <= crit_atoms@.len(),
            names == crate::bytes::views(crit_atoms@),
            whole == criteria_spec(names, false),
            whole == match criteria_spec(names.skip(k as int), reverse) {
                Some(rest) => Some(criteria@ + rest),
                None => None::<Seq<SortCriterion>>,
            },
        decreases crit_atoms@.len() - k,
    {
        assert(names.skip(k as int).drop_first() =~= names.skip(k + 1));
        assert(names.skip(k as int)[0] == crit_atoms@[k as int]@);
        let a = crit_atoms[k].as_slice();
        if is_kw(a, "REVERSE") {
            reverse = true;
        } else {
            match sort_key(a) {
                Some(key) => {
                    let ghost before = criteria@;
                    criteria.push(SortCriterion { reverse, key });
                    proof {
                        match criteria_spec(names.skip(k + 1), false) {
                            Some(rest) => {
                                assert(before + (seq![SortCriterion { reverse, key }] + rest) =~= criteria@ + rest);
                            },
                            None => {},
                        }
                    }
                    reverse = false;
                },
                None => return Err(ParseError::Syntax("unknown SORT key")),
            }
        }
        k += 1;
    }
    assert(names.skip(k as int).len() == 0);
    assert(criteria@ + Seq::<SortCriterion>::empty() =~= criteria@);
    if criteria.len() == 0 {
        return Err(ParseError::Syntax("SORT needs at least one criterion"));
    }
    let charset = opt_str_at(args, next);
    let after = if next < args.len() { next + 1 } else { next };
    let key = parse_search_key(tail_from(args, after))?;
    Ok(Command::Sort { criteria, charset, key, uid })
}

fn parse_thread(args: &[Token], uid: bool) -> (r: Result<Command, ParseError>)
    ensures
        syntax_err(r),
        r matches Ok(c) ==> c matches Command::Thread { uid: u, .. } && u == uid,
        thread_spec(super::token::toks(args@), r),
{
    let algo = atom_at(args, 0)?;
    let algorithm = if is_kw(algo.as_slice(), "ORDEREDSUBJECT") {
        ThreadAlgorithm::OrderedSubject
    } else if is_kw(algo.as_slice(), "REFERENCES") {
        ThreadAlgorithm::References
    } else {
        return Err(ParseError::Syntax("unknown THREAD algorithm"));
    };
    let charset = opt_str_at(args, 1);
    let key = parse_search_key(tail_from(args, 2))?;
    Ok(Command::Thread { algorithm, charset, key, uid })
}

fn parse_id(args: &[Token]) -> (r: Result<Command, ParseError>)
    ensures
        syntax_err(r),
        r matches Ok(c) ==> c is Id,
        id_spec(super::token::toks(args@), r),
{
    if args.len() > 0 && atom_is(&args[0], "NIL") {
        return Ok(Command::Id(None));
    }
    if is_lparen_at(args, 0) {
        let (inner, _n) = read_paren_tokens(args, 0)?;
        let mut kv: Vec<(Vec<u8>, Vec<u8>)> = Vec::new();
        let mut j: usize = 0;
        let n = inner.len();
        while j < n && n - j > 1
            invariant
                j <= n,
                n == inner@.len(),
                j % 2 == 0,
                kv@.len() <= j / 2,
            decreases n - j,
        {
            match (inner[j].as_str(), inner[j + 1].as_str()) {
                (Some(k), Some(v)) => kv.push((to_vec(k), to_vec(v))),
                _ => {},
            }
            j += 2;
        }
        return Ok(Command::Id(Some(kv)));
    }
    Ok(Command::Id(None))
}

fn parse_search(args: &[Token], uid: bool) -> (r: Result<Command, ParseError>)
    ensures
        syntax_err(r),
        r matches Ok(c) ==> c matches Command::Search { uid: u, .. } && u == uid,
        search_cmd_spec(super::token::toks(args@), r),
{
    let _n = args.len();
    let mut i: usize = 0;
    let mut ret: Vec<Vec<u8>> = Vec::new();
    if args.len() > 0 && atom_is(&args[0], "RETURN") {
        let (opts, ni) = read_paren_atoms(args, 1)?;
        ret = upper_all(&opts);
        i = ni;
    }
    let mut charset: Option<Vec<u8>> = None;
    if i < args.len() && atom_is(&args[i], "CHARSET") {
        charset = opt_str_at(args, i + 1);
        i = if i + 1 < args.len() { i + 2 } else { args.len() };
    }
    let key = parse_search_key(tail_from(args, i))?;
    Ok(Command::Search { charset, key, uid, ret })
}

fn parse_uid(args: &[Token]) -> (r: Result<Command, ParseError>)
    ensures
        syntax_err(r),
        r matches Ok(c) ==> uid_variant(c),
        uid_spec(super::token::toks(args@), r),
{
    let sub = atom_at(args, 0)?;
    let s = sub.as_slice();
    let rest = toks_range(args, 1, args.len());
    if is_kw(s, "FETCH") {
        parse_fetch(rest, true)
    } else if is_kw(s, "STORE") {
        Ok(Command::Store(parse_store(rest, true)?))
    } else if is_kw(s, "SEARCH") {
        parse_search(rest, true)
    } else if is_kw(s, "SORT") {
        parse_sort(rest, true)
    } else if is_kw(s, "THREAD") {
        parse_thread(rest, true)
    } else if is_kw(s, "COPY") {
        parse_copy_move(rest, true, false)
    } else if is_kw(s, "MOVE") {
        parse_copy_move(rest, true, true)
    } else if is_kw(s, "EXPUNGE") {
        Ok(Command::UidExpunge(set_at(rest, 0)?))
    } else {
        Err(ParseError::Syntax("unknown UID subcommand"))
    }
}

/// Build the command named `name` from its arguments.
fn parse_body(name: &[u8], args: &[Token]) -> (r: Result<Command, ParseError>)
    ensures
        body_spec(name@, super::token::toks(args@), r),
{
    let ghost a = super::token::toks(args@);
    if is_kw(name, "CAPABILITY") {
        Ok(Command::Capability)
    } else if is_kw(name, "NOOP") {
        Ok(Command::Noop)
    } else if is_kw(name, "LOGOUT") {
        Ok(Command::Logout)
    } else if is_kw(name, "STARTTLS") {
        Ok(Command::StartTls)
    } else if is_kw(name, "CHECK") {
        Ok(Command::Check)
    } else if is_kw(name, "CLOSE") {
        Ok(Command::Close)
    } else if is_kw(name, "UNSELECT") {
        Ok(Command::Unselect)
    } else if is_kw(name, "IDLE") {
        Ok(Command::Idle)
    } else if is_kw(name, "NAMESPACE") {
        Ok(Command::Namespace)
    } else if is_kw(name, "EXPUNGE") {
        Ok(Command::Expunge)
    } else if is_kw(name, "ENABLE") {
        Ok(Command::Enable(strings_of(args)))
    } else if is_kw(name, "LOGIN") {
        let user = atom_at(args, 0)?;
        let pass = atom_at(args, 1)?;
        Ok(Command::Login { user, pass })
    } else if is_kw(name, "AUTHENTICATE") {
        let mechanism = atom_at(args, 0)?;
        let initial = opt_str_at(args, 1);
        Ok(Command::Authenticate { mechanism, initial })
    } else if is_kw(name, "SELECT") || is_kw(name, "EXAMINE") {
        let is_select = is_kw(name, "SELECT");
        let mailbox = atom_at(args, 0)?;
        let (qresync, condstore) = parse_select_params(tail_from(args, 1))?;
        if is_select {
            Ok(Command::Select { mailbox, qresync, condstore })
        } else {
            Ok(Command::Examine { mailbox, qresync, condstore })
        }
    } else if is_kw(name, "CREATE") {
        parse_create(args)
    } else if is_kw(name, "DELETE") {
        Ok(Command::Delete(atom_at(args, 0)?))
    } else if is_kw(name, "RENAME") {
        let from = atom_at(args, 0)?;
        let to = atom_at(args, 1)?;
        Ok(Command::Rename { from, to })
    } else if is_kw(name, "SUBSCRIBE") {
        Ok(Command::Subscribe(atom_at(args, 0)?))
    } else if is_kw(name, "UNSUBSCRIBE") {
        Ok(Command::Unsubscribe(atom_at(args, 0)?))
    } else if is_kw(name, "LIST") {
        parse_list(args)
    } else if is_kw(name, "LSUB") {
        let reference = atom_at(args, 0)?;
        let pattern = atom_at(args, 1)?;
        Ok(Command::Lsub { reference, pattern })
    } else if is_kw(name, "STATUS") {
        parse_status(args)
    } else if is_kw(name, "APPEND") {
        parse_append(args)
    } else if is_kw(name, "ID") {
        parse_id(args)
    } else if is_kw(name, "SEARCH") {
        parse_search(args, false)
    } else if is_kw(name, "SORT") {
        parse_sort(args, false)
    } else if is_kw(name, "THREAD") {
        parse_thread(args, false)
    } else if is_kw(name, "FETCH") {
        parse_fetch(args, false)
    } else if is_kw(name, "STORE") {
        Ok(Command::Store(parse_store(args, false)?))
    } else if is_kw(name, "COPY") {
        parse_copy_move(args, false, false)
    } else if is_kw(name, "MOVE") {
        parse_copy_move(args, false, true)
    } else if is_kw(name, "UID") {
        parse_uid(args)
    } else {
        Err(ParseError::UnknownCommand(to_upper(name)))
    }
}

/// What a token stream parses to: a tag and a verb (each an atom or quoted string, else
/// [`ParseError::Empty`]), then the command the verb builds from the remaining tokens.
pub open spec fn tokens_spec(t: Seq<super::token::Tok>, r: Result<ParsedCommand, ParseError>) -> bool {
    match (str_at(t, 0), str_at(t, 1)) {
        (Some(tag), Some(name)) => {
            &&& r matches Ok(pc) ==> pc.tag@ == tag && body_spec(name, t.skip(2), Ok(pc.command))
            &&& r matches Err(e) ==> body_spec(name, t.skip(2), Err(e))
        },
        _ => r == Err::<ParsedCommand, ParseError>(ParseError::Empty),
    }
}

/// Parse an already-tokenized command (shared with the SASL-IR / literal reader path).
pub fn parse_tokens(tokens: &[Token]) -> (r: Result<ParsedCommand, ParseError>)
    ensures
        tokens_spec(super::token::toks(tokens@), r),
{
    let tag = match atom_at(tokens, 0) {
        Ok(t) => t,
        Err(_) => return Err(ParseError::Empty),
    };
    let name = match atom_at(tokens, 1) {
        Ok(n) => n,
        Err(_) => return Err(ParseError::Empty),
    };
    let args = toks_range(tokens, 2, tokens.len());
    assert(super::token::toks(args@) =~= super::token::toks(tokens@).skip(2));
    let command = parse_body(name.as_slice(), args)?;
    Ok(ParsedCommand { tag, command })
}

/// Parse a complete command buffer into a [`ParsedCommand`].
pub fn parse_command(buf: &[u8]) -> (r: Result<ParsedCommand, ParseError>)
    ensures
        match super::token::tokenize_from(buf@, 0) {
            Ok(t) => tokens_spec(t, r),
            Err(e) => r == Err::<ParsedCommand, ParseError>(e),
        },
{
    let tokens = tokenize(buf)?;
    parse_tokens(tokens.as_slice())
}

} // verus!
