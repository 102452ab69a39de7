//! The IMAP command tokenizer (RFC 9051 §6): quoted strings, parenthesised lists, bracketed
//! section specs and `{n}` / `{n+}` literals, over a complete command buffer whose literals have
//! already been read off the wire and inlined.
use vstd::prelude::*;
use crate::bytes::{slice_of, to_vec};

verus! {

/// A lexical token of an IMAP command line.
#[derive(Debug, Clone, PartialEq, Eq)]
pub enum Token {
    Atom(Vec<u8>),
    /// A quoted string, escapes removed; each byte stands for the character with that code.
    Quoted(Vec<u8>),
    Literal(Vec<u8>),
    LParen,
    RParen,
    LBracket,
    RBracket,
}

/// The mathematical value of a [`Token`].
pub ghost enum Tok {
    Atom(Seq<u8>),
    Quoted(Seq<u8>),
    Literal(Seq<u8>),
    LParen,
    RParen,
    LBracket,
    RBracket,
}

impl View for Token {
    type V = Tok;

    open spec fn view(&self) -> Tok {
        match self {
            Token::Atom(s) => Tok::Atom(s@),
            Token::Quoted(s) => Tok::Quoted(s@),
            Token::Literal(s) => Tok::Literal(s@),
            Token::LParen => Tok::LParen,
            Token::RParen => Tok::RParen,
            Token::LBracket => Tok::LBracket,
            Token::RBracket => Tok::RBracket,
        }
    }
}

/// The views of a token slice.
pub open spec fn toks(v: Seq<Token>) -> Seq<Tok> {
    v.map_values(|t: Token| t@)
}

/// The text of an atom or quoted string (arguments that accept `astring`).
pub open spec fn tok_str(t: Tok) -> Option<Seq<u8>> {
    match t {
        Tok::Atom(s) => Some(s),
        Tok::Quoted(s) => Some(s),
        _ => None,
    }
}

/// The bytes of a literal, atom or quoted string.
pub open spec fn tok_bytes(t: Tok) -> Option<Seq<u8>> {
    match t {
        Tok::Atom(s) => Some(s),
        Tok::Quoted(s) => Some(s),
        Tok::Literal(s) => Some(s),
        _ => None,
    }
}

impl Token {
    /// The text of an atom or quoted string (for arguments that accept `astring`).
    pub fn as_str(&self) -> (r: Option<&[u8]>)
        ensures
            match tok_str(self@) {
                Some(s) => r matches Some(b) && b@ == s,
                None => r is None,
            },
    {
        match self {
            Token::Atom(s) => Some(s.as_slice()),
            Token::Quoted(s) => Some(s.as_slice()),
            _ => None,
        }
    }

    /// Bytes of a literal, or the bytes of an atom/quoted string.
    pub fn as_bytes(&self) -> (r: Option<Vec<u8>>)
        ensures
            match tok_bytes(self@) {
                Some(s) => r matches Some(b) && b@ == s,
                None => r is None,
            },
    {
        match self {
            Token::Atom(s) => Some(to_vec(s.as_slice())),
            Token::Quoted(s) => Some(to_vec(s.as_slice())),
            Token::Literal(b) => Some(to_vec(b.as_slice())),
            _ => None,
        }
    }

    /// An owned copy.
    pub fn copy(&self) -> (r: Token)
        ensures
            r@ == self@,
    {
        match self {
            Token::Atom(s) => Token::Atom(to_vec(s.as_slice())),
            Token::Quoted(s) => Token::Quoted(to_vec(s.as_slice())),
            Token::Literal(b) => Token::Literal(to_vec(b.as_slice())),
            Token::LParen => Token::LParen,
            Token::RParen => Token::RParen,
            Token::LBracket => Token::LBracket,
            Token::RBracket => Token::RBracket,
        }
    }
}

/// Why a command could not be parsed. Every such command is answered `BAD`.
#[derive(Debug, Clone, PartialEq, Eq)]
pub enum ParseError {
    Empty,
    BadLiteral,
    UnterminatedQuote,
    UnknownCommand(Vec<u8>),
    Syntax(&'static str),
}

/// The largest literal accepted (64 MiB), whatever the buffer holds.
pub const MAX_LITERAL_LEN: usize = 67108864;

/// Token separators.
pub open spec fn is_space(b: u8) -> bool {
    b == 32 || b == 9 || b == 13 || b == 10
}

/// Bytes that end an atom.
pub open spec fn ends_atom(b: u8) -> bool {
    is_space(b) || b == 40 || b == 41 || b == 91 || b == 93 || b == 123 || b == 34
}

/// The quoted string starting at `i` (just after the opening quote): its unescaped bytes and
/// the position after the closing quote, or `None` if the buffer ends first. A backslash makes
/// the next byte literal.
pub open spec fn quoted_from(buf: Seq<u8>, i: int) -> Option<(Seq<u8>, int)>
    decreases buf.len() - i,
{
    if i < 0 || i >= buf.len() {
        None
    } else if buf[i] == 34 {
        Some((seq![], i + 1))
    } else if buf[i] == 92 && i + 1 < buf.len() {
        match quoted_from(buf, i + 2) {
            Some((s, n)) => Some((seq![buf[i + 1]] + s, n)),
            None => None,
        }
    } else {
        match quoted_from(buf, i + 1) {
            Some((s, n)) => Some((seq![buf[i]] + s, n)),
            None => None,
        }
    }
}

/// The end of the run of bytes satisfying "not an atom end" starting at `i`.
pub open spec fn atom_end(buf: Seq<u8>, i: int) -> int
    decreases buf.len() - i,
{
    if 0 <= i < buf.len() && !ends_atom(buf[i]) { atom_end(buf, i + 1) } else { i }
}

/// The end of the run of decimal digits starting at `i`.
pub open spec fn digits_end(buf: Seq<u8>, i: int) -> int
    decreases buf.len() - i,
{
    if 0 <= i < buf.len() && crate::bytes::is_digit(buf[i]) { digits_end(buf, i + 1) } else { i }
}

/// The literal introduced at `i` (just after `{`): `n` digits, an optional `+`, `}`, an optional
/// CR, an optional LF, then `n` bytes of content (`n` at most [`MAX_LITERAL_LEN`] and no more
/// than the buffer holds). Returns the content and the position after it.
pub open spec fn literal_from(buf: Seq<u8>, i: int) -> Option<(Seq<u8>, int)> {
    let e = digits_end(buf, i);
    match crate::bytes::parse_dec_spec(buf.subrange(i, e), usize::MAX as nat) {
        None => None,
        Some(n) => {
            let p = if e < buf.len() && buf[e] == 43 { e + 1 } else { e };
            if p >= buf.len() || buf[p] != 125 {
                None
            } else {
                let q = p + 1;
                let q2 = if q < buf.len() && buf[q] == 13 { q + 1 } else { q };
                let q3 = if q2 < buf.len() && buf[q2] == 10 { q2 + 1 } else { q2 };
                if n > MAX_LITERAL_LEN || q3 + n > buf.len() {
                    None
                } else {
                    Some((buf.subrange(q3, q3 + n), q3 + n))
                }
            }
        },
    }
}

/// Prepend a token to a successful tokenization.
pub open spec fn cons(t: Tok, r: Result<Seq<Tok>, ParseError>) -> Result<Seq<Tok>, ParseError> {
    match r {
        Ok(ts) => Ok(seq![t] + ts),
        Err(e) => Err(e),
    }
}

/// Tokenize `buf` from position `i`.
pub open spec fn tokenize_from(buf: Seq<u8>, i: int) -> Result<Seq<Tok>, ParseError>
    decreases buf.len() - i,
{
    if i < 0 || i >= buf.len() {
        Ok(seq![])
    } else {
        let c = buf[i];
        if is_space(c) {
            tokenize_from(buf, i + 1)
        } else if c == 40 {
            cons(Tok::LParen, tokenize_from(buf, i + 1))
        } else if c == 41 {
            cons(Tok::RParen, tokenize_from(buf, i + 1))
        } else if c == 91 {
            cons(Tok::LBracket, tokenize_from(buf, i + 1))
        } else if c == 93 {
            cons(Tok::RBracket, tokenize_from(buf, i + 1))
        } else if c == 34 {
            match quoted_from(buf, i + 1) {
                Some((s, n)) => if i < n <= buf.len() { cons(Tok::Quoted(s), tokenize_from(buf, n)) } else { Err(ParseError::UnterminatedQuote) },
                None => Err(ParseError::UnterminatedQuote),
            }
        } else if c == 123 {
            match literal_from(buf, i + 1) {
                Some((s, n)) => if i < n <= buf.len() { cons(Tok::Literal(s), tokenize_from(buf, n)) } else { Err(ParseError::BadLiteral) },
                None => Err(ParseError::BadLiteral),
            }
        } else {
            let e = atom_end(buf, i);
            if i < e <= buf.len() {
                cons(Tok::Atom(buf.subrange(i, e)), tokenize_from(buf, e))
            } else {
                Ok(seq![])
            }
        }
    }
}

proof fn lemma_quoted_pos(buf: Seq<u8>, i: int)
    requires
        quoted_from(buf, i) is Some,
    ensures
        quoted_from(buf, i).unwrap().1 > i,
        quoted_from(buf, i).unwrap().1 <= buf.len(),
    decreases buf.len() - i,
{
    if buf[i] == 34 {
    } else if buf[i] == 92 && i + 1 < buf.len() {
        lemma_quoted_pos(buf, i + 2);
    } else {
        lemma_quoted_pos(buf, i + 1);
    }
}

proof fn lemma_atom_end(buf: Seq<u8>, i: int)
    requires
        0 <= i <= buf.len(),
    ensures
        i <= atom_end(buf, i) <= buf.len(),
        forall|j: int| i <= j < atom_end(buf, i) ==> !ends_atom(#[trigger] buf[j]),
        atom_end(buf, i) == buf.len() || ends_atom(buf[atom_end(buf, i)]),
    decreases buf.len() - i,
{
    if i < buf.len() && !ends_atom(buf[i]) {
        lemma_atom_end(buf, i + 1);
    }
}

proof fn lemma_digits_end(buf: Seq<u8>, i: int)
    requires
        0 <= i <= buf.len(),
    ensures
        i <= digits_end(buf, i) <= buf.len(),
        forall|j: int| i <= j < digits_end(buf, i) ==> crate::bytes::is_digit(#[trigger] buf[j]),
        digits_end(buf, i) == buf.len() || !crate::bytes::is_digit(buf[digits_end(buf, i)]),
    decreases buf.len() - i,
{
    if i < buf.len() && crate::bytes::is_digit(buf[i]) {
        lemma_digits_end(buf, i + 1);
    }
}

fn byte_is_space(b: u8) -> (r: bool)
    ensures
        r == is_space(b),
{
    b == 32 || b == 9 || b == 13 || b == 10
}

fn byte_ends_atom(b: u8) -> (r: bool)
    ensures
        r == ends_atom(b),
{
    byte_is_space(b) || b == 40 || b == 41 || b == 91 || b == 93 || b == 123 || b == 34
}

/// Read a quoted string whose opening quote precedes `start`.
pub fn read_quoted(buf: &[u8], start: usize) -> (r: Result<(Vec<u8>, usize), ParseError>)
    requires
        start <= buf@.len(),
    ensures
        match quoted_from(buf@, start as int) {
            Some((s, n)) => r matches Ok((v, m)) && v@ == s && m == n,
            None => r == Err::<(Vec<u8>, usize), ParseError>(ParseError::UnterminatedQuote),
        },
{
    let mut s: Vec<u8> = Vec::new();
    let mut i: usize = start;
    let len = buf.len();
    while i < len
        invariant
            len == buf@.len(),
            start <= i <= len,
            quoted_from(buf@, start as int) == (match quoted_from(buf@, i as int) {
                Some((t, n)) => Some((s@ + t, n)),
                None => None,
            }),
        decreases len - i,
    {
        let c = buf[i];
        if c == 34 {
            assert(s@ + Seq::<u8>::empty() =~= s@);
            return Ok((s, i + 1));
        } else if c == 92 && i + 1 < len {
            let ghost before = s@;
            s.push(buf[i + 1]);
            proof {
                match quoted_from(buf@, i + 2) {
                    Some((t, n)) => {
                        assert(before + (seq![buf@[i + 1]] + t) =~= s@ + t);
                    },
                    None => {},
                }
            }
            i += 2;
        } else {
            let ghost before = s@;
            s.push(c);
            proof {
                match quoted_from(buf@, i + 1) {
                    Some((t, n)) => {
                        assert(before + (seq![c] + t) =~= s@ + t);
                    },
                    None => {},
                }
            }
            i += 1;
        }
    }
    Err(ParseError::UnterminatedQuote)
}

/// Read a literal whose `{` precedes `start`.
pub fn read_literal(buf: &[u8], start: usize) -> (r: Result<(Vec<u8>, usize), ParseError>)
    requires
        start <= buf@.len(),
    ensures
        match literal_from(buf@, start as int) {
            Some((s, n)) => r matches Ok((v, m)) && v@ == s && m == n,
            None => r == Err::<(Vec<u8>, usize), ParseError>(ParseError::BadLiteral),
        },
{
    let len = buf.len();
    let mut i: usize = start;
    while i < len && buf[i] >= 48 && buf[i] <= 57
        invariant
            len == buf@.len(),
            start <= i <= len,
            digits_end(buf@, start as int) == digits_end(buf@, i as int),
        decreases len - i,
    {
        i += 1;
    }
    proof {
        lemma_digits_end(buf@, i as int);
    }
    let n = match crate::bytes::parse_usize(slice_of(buf, start, i)) {
        Some(n) => n,
        None => return Err(ParseError::BadLiteral),
    };
    if i < len && buf[i] == 43 {
        i += 1;
    }
    if i >= len || buf[i] != 125 {
        return Err(ParseError::BadLiteral);
    }
    i += 1;
    if i < len && buf[i] == 13 {
        i += 1;
    }
    if i < len && buf[i] == 10 {
        i += 1;
    }
    if n > MAX_LITERAL_LEN || n > len - i {
        return Err(ParseError::BadLiteral);
    }
    Ok((to_vec(slice_of(buf, i, i + n)), i + n))
}

/// Read an atom starting at `start`: its bytes and the position after it.
pub fn read_atom(buf: &[u8], start: usize) -> (r: (Vec<u8>, usize))
    requires
        start <= buf@.len(),
    ensures
        r.1 == atom_end(buf@, start as int),
        r.0@ == buf@.subrange(start as int, r.1 as int),
{
    let len = buf.len();
    let mut i: usize = start;
    while i < len && !byte_ends_atom(buf[i])
        invariant
            len == buf@.len(),
            start <= i <= len,
            atom_end(buf@, start as int) == atom_end(buf@, i as int),
        decreases len - i,
    {
        i += 1;
    }
    (to_vec(slice_of(buf, start, i)), i)
}

/// Tokenize a complete command buffer. The trailing CRLF is optional.
pub fn tokenize(buf: &[u8]) -> (r: Result<Vec<Token>, ParseError>)
    ensures
        match tokenize_from(buf@, 0) {
            Ok(ts) => r matches Ok(v) && toks(v@) == ts,
            Err(e) => r == Err::<Vec<Token>, ParseError>(e),
        },
{
    let mut out: Vec<Token> = Vec::new();
    let len = buf.len();
    let mut i: usize = 0;
    while i < len
        invariant
            len == buf@.len(),
            i <= len,
            tokenize_from(buf@, 0) == (match tokenize_from(buf@, i as int) {
                Ok(ts) => Ok(toks(out@) + ts),
                Err(e) => Err(e),
            }),
        decreases len - i,
    {
        let c = buf[i];
        let ghost before = toks(out@);
        if byte_is_space(c) {
            i += 1;
        } else if c == 40 || c == 41 || c == 91 || c == 93 {
            let t = if c == 40 {
                Token::LParen
            } else if c == 41 {
                Token::RParen
            } else if c == 91 {
                Token::LBracket
            } else {
                Token::RBracket
            };
            out.push(t);
            assert(toks(out@) =~= before.push(t@));
            proof {
                match tokenize_from(buf@, i + 1) {
                    Ok(ts) => {
                        assert(before + (seq![t@] + ts) =~= toks(out@) + ts);
                    },
                    Err(e) => {},
                }
            }
            i += 1;
        } else if c == 34 {
            let (s, ni) = match read_quoted(buf, i + 1) {
                Ok(p) => p,
                Err(e) => return Err(e),
            };
            proof {
                lemma_quoted_pos(buf@, i + 1);
            }
            let t = Token::Quoted(s);
            let ghost tv = t@;
            out.push(t);
            assert(toks(out@) =~= before.push(tv));
            proof {
                match tokenize_from(buf@, ni as int) {
                    Ok(ts) => {
                        assert(before + (seq![tv] + ts) =~= toks(out@) + ts);
                    },
                    Err(e) => {},
                }
            }
            i = ni;
        } else if c == 123 {
            let (s, ni) = match read_literal(buf, i + 1) {
                Ok(p) => p,
                Err(e) => return Err(e),
            };
            proof {
                lemma_digits_end(buf@, i + 1);
            }
            let t = Token::Literal(s);
            let ghost tv = t@;
            out.push(t);
            assert(toks(out@) =~= before.push(tv));
            proof {
                match tokenize_from(buf@, ni as int) {
                    Ok(ts) => {
                        assert(before + (seq![tv] + ts) =~= toks(out@) + ts);
                    },
                    Err(e) => {},
                }
            }
            i = ni;
        } else {
            let (s, ni) = read_atom(buf, i);
            proof {
                lemma_atom_end(buf@, i as int);
            }
            let t = Token::Atom(s);
            let ghost tv = t@;
            out.push(t);
            assert(toks(out@) =~= before.push(tv));
            proof {
                match tokenize_from(buf@, ni as int) {
                    Ok(ts) => {
                        assert(before + (seq![tv] + ts) =~= toks(out@) + ts);
                    },
                    Err(e) => {},
                }
            }
            i = ni;
        }
    }
    assert(toks(out@) + Seq::<Tok>::empty() =~= toks(out@));
    Ok(out)
}


/// `a[lo..hi]`.
pub fn toks_range(a: &[Token], lo: usize, hi: usize) -> (r: &[Token])
    requires
        lo <= hi <= a@.len(),
    ensures
        r@ == a@.subrange(lo as int, hi as int),
        toks(r@) == toks(a@).subrange(lo as int, hi as int),
{
    let r = &a[lo..hi];
    assert(toks(r@) =~= toks(a@).subrange(lo as int, hi as int));
    r
}

/// An owned copy of `a[lo..hi]`.
pub fn copy_range(a: &[Token], lo: usize, hi: usize) -> (r: Vec<Token>)
    requires
        lo <= hi <= a@.len(),
    ensures
        toks(r@) == toks(a@).subrange(lo as int, hi as int),
{
    let mut out: Vec<Token> = Vec::new();
    let mut i: usize = lo;
    while i < hi
        invariant
            lo <= i <= hi <= a@.len(),
            toks(out@) == toks(a@).subrange(lo as int, i as int),
        decreases hi - i,
    {
        let t = a[i].copy();
        assert(t@ == a@[i as int]@);
        let ghost tv = t@;
        let ghost before = toks(out@);
        out.push(t);
        assert(toks(out@) =~= before.push(tv));
        assert(toks(out@) =~= toks(a@).subrange(lo as int, i + 1));
        i += 1;
    }
    out
}

} // verus!
