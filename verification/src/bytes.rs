//! Byte-level text helpers shared by every protocol module: ASCII case folding, trimming,
//! searching, decimal parsing and the base64 codec (RFC 4648 §4, standard alphabet).
//!
//! Mail protocols are byte protocols: a command line is ASCII, but a header or a body may carry
//! 8-bit data that must survive byte-exact. Everything here therefore works on `[u8]`, and each
//! function is specified against a spec function over `Seq<u8>`.
use vstd::prelude::*;

verus! {

// ---------------------------------------------------------------------------------------------
// Specifications
// ---------------------------------------------------------------------------------------------

/// ASCII upper-casing of one byte (non-letters unchanged).
pub open spec fn upper(b: u8) -> u8 {
    if 97 <= b <= 122 { (b - 32) as u8 } else { b }
}

/// ASCII lower-casing of one byte (non-letters unchanged).
pub open spec fn lower(b: u8) -> u8 {
    if 65 <= b <= 90 { (b + 32) as u8 } else { b }
}

pub open spec fn upper_seq(s: Seq<u8>) -> Seq<u8> {
    s.map_values(|b: u8| upper(b))
}

pub open spec fn lower_seq(s: Seq<u8>) -> Seq<u8> {
    s.map_values(|b: u8| lower(b))
}

/// ASCII case-insensitive equality.
pub open spec fn eq_ci_spec(a: Seq<u8>, b: Seq<u8>) -> bool {
    upper_seq(a) == upper_seq(b)
}

/// The UTF-8 encoding of a text.
pub open spec fn utf8(c: Seq<char>) -> Seq<u8> {
    vstd::utf8::encode_utf8(c)
}

/// The bytes of a string slice (its UTF-8 encoding).
pub open spec fn lit(s: &str) -> Seq<u8> {
    utf8(s@)
}

/// The bytes of an ASCII string are its characters, one each.
pub proof fn lemma_ascii_lit(s: &str)
    requires
        vstd::utf8::is_ascii_chars(s@),
    ensures
        lit(s).len() == s@.len(),
        forall|i: int| 0 <= i < s@.len() ==> #[trigger] lit(s)[i] == s@[i] as u8,
{
    vstd::utf8::is_ascii_chars_encode_utf8(s@);
}

/// ASCII white space: SP, TAB, LF, VT, FF, CR.
pub open spec fn is_ws(b: u8) -> bool {
    b == 32 || (9 <= b <= 13)
}

/// Linear white space: SP or TAB.
pub open spec fn is_wsp(b: u8) -> bool {
    b == 32 || b == 9
}

pub open spec fn is_digit(b: u8) -> bool {
    48 <= b <= 57
}

/// Number of leading white-space bytes.
pub open spec fn lead_ws(s: Seq<u8>) -> nat
    decreases s.len(),
{
    if s.len() > 0 && is_ws(s[0]) { 1 + lead_ws(s.drop_first()) } else { 0 }
}

/// Number of trailing white-space bytes.
pub open spec fn trail_ws(s: Seq<u8>) -> nat
    decreases s.len(),
{
    if s.len() > 0 && is_ws(s.last()) { 1 + trail_ws(s.drop_last()) } else { 0 }
}

pub open spec fn trim_start_spec(s: Seq<u8>) -> Seq<u8> {
    s.subrange(lead_ws(s) as int, s.len() as int)
}

pub open spec fn trim_end_spec(s: Seq<u8>) -> Seq<u8> {
    s.subrange(0, s.len() - trail_ws(s))
}

/// `s` with leading and trailing ASCII white space removed.
pub open spec fn trim_spec(s: Seq<u8>) -> Seq<u8> {
    trim_end_spec(trim_start_spec(s))
}

/// `i` is the first position at which byte `b` occurs in `s`.
pub open spec fn first_at(s: Seq<u8>, b: u8, i: int) -> bool {
    0 <= i < s.len() && s[i] == b && forall|j: int| 0 <= j < i ==> s[j] != b
}

/// `n` occurs in `h` at position `i`.
pub open spec fn occurs_at(h: Seq<u8>, n: Seq<u8>, i: int) -> bool {
    0 <= i && i + n.len() <= h.len() && h.subrange(i, i + n.len()) == n
}

/// Result of searching `h` for the first occurrence of `n`.
pub open spec fn find_spec(h: Seq<u8>, n: Seq<u8>, r: Option<usize>) -> bool {
    match r {
        Some(i) => occurs_at(h, n, i as int) && forall|j: int| 0 <= j < i ==> !occurs_at(h, n, j),
        None => forall|j: int| !occurs_at(h, n, j),
    }
}

/// Value of a string of decimal digits.
pub open spec fn digits_val(s: Seq<u8>) -> nat
    decreases s.len(),
{
    if s.len() == 0 { 0 } else { digits_val(s.drop_last()) * 10 + (s.last() - 48) as nat }
}

pub open spec fn all_digits(s: Seq<u8>) -> bool {
    forall|i: int| 0 <= i < s.len() ==> is_digit(#[trigger] s[i])
}

/// The digit run of a decimal numeral as accepted by Rust's integer `FromStr`: an optional
/// leading `+` followed by at least one digit.
pub open spec fn numeral_digits(s: Seq<u8>) -> Seq<u8> {
    if s.len() > 0 && s[0] == 43 { s.drop_first() } else { s }
}

/// Decimal parse with an upper bound, as Rust's unsigned `FromStr` does it: `None` on an empty
/// digit run, a non-digit, or a value above `max`.
pub open spec fn parse_dec_spec(s: Seq<u8>, max: nat) -> Option<nat> {
    let d = numeral_digits(s);
    if d.len() > 0 && all_digits(d) && digits_val(d) <= max { Some(digits_val(d)) } else { None }
}

// ---------------------------------------------------------------------------------------------
// Case folding and comparison
// ---------------------------------------------------------------------------------------------

pub fn upper_byte(b: u8) -> (r: u8)
    ensures
        r == upper(b),
{
    if b >= 97 && b <= 122 { b - 32 } else { b }
}

pub fn lower_byte(b: u8) -> (r: u8)
    ensures
        r == lower(b),
{
    if b >= 65 && b <= 90 { b + 32 } else { b }
}

/// ASCII upper-case copy of `s`.
pub fn to_upper(s: &[u8]) -> (r: Vec<u8>)
    ensures
        r@ == upper_seq(s@),
{
    let mut out: Vec<u8> = Vec::new();
    let mut i: usize = 0;
    while i < s.len()
        invariant
            i <= s@.len(),
            out@ == upper_seq(s@.take(i as int)),
        decreases s@.len() - i,
    {
        out.push(upper_byte(s[i]));
        assert(s@.take(i + 1) =~= s@.take(i as int).push(s@[i as int]));
        i += 1;
    }
    assert(s@.take(s@.len() as int) =~= s@);
    out
}

/// ASCII lower-case copy of `s`.
pub fn to_lower(s: &[u8]) -> (r: Vec<u8>)
    ensures
        r@ == lower_seq(s@),
{
    let mut out: Vec<u8> = Vec::new();
    let mut i: usize = 0;
    while i < s.len()
        invariant
            i <= s@.len(),
            out@ == lower_seq(s@.take(i as int)),
        decreases s@.len() - i,
    {
        out.push(lower_byte(s[i]));
        assert(s@.take(i + 1) =~= s@.take(i as int).push(s@[i as int]));
        i += 1;
    }
    assert(s@.take(s@.len() as int) =~= s@);
    out
}

/// Byte-exact equality.
pub fn bytes_eq(a: &[u8], b: &[u8]) -> (r: bool)
    ensures
        r == (a@ == b@),
{
    if a.len() != b.len() {
        return false;
    }
    let mut i: usize = 0;
    while i < a.len()
        invariant
            i <= a@.len(),
            a@.len() == b@.len(),
            forall|j: int| 0 <= j < i ==> a@[j] == b@[j],
        decreases a@.len() - i,
    {
        if a[i] != b[i] {
            return false;
        }
        i += 1;
    }
    assert(a@ =~= b@);
    true
}

/// ASCII case-insensitive equality.
pub fn eq_ci(a: &[u8], b: &[u8]) -> (r: bool)
    ensures
        r == eq_ci_spec(a@, b@),
{
    if a.len() != b.len() {
        return false;
    }
    let mut i: usize = 0;
    while i < a.len()
        invariant
            i <= a@.len(),
            a@.len() == b@.len(),
            forall|j: int| 0 <= j < i ==> upper(a@[j]) == upper(b@[j]),
        decreases a@.len() - i,
    {
        if upper_byte(a[i]) != upper_byte(b[i]) {
            assert(upper_seq(a@)[i as int] != upper_seq(b@)[i as int]);
            return false;
        }
        i += 1;
    }
    assert(upper_seq(a@) =~= upper_seq(b@));
    true
}

/// Case-insensitive comparison against a keyword literal.
pub fn is_kw(s: &[u8], kw: &str) -> (r: bool)
    ensures
        r == eq_ci_spec(s@, lit(kw)),
{
    eq_ci(s, kw.as_bytes())
}

/// Byte-exact comparison against a literal.
pub fn is_lit(s: &[u8], l: &str) -> (r: bool)
    ensures
        r == (s@ == lit(l)),
{
    bytes_eq(s, l.as_bytes())
}

// ---------------------------------------------------------------------------------------------
// Building and slicing
// ---------------------------------------------------------------------------------------------

/// Append `s` to `out`.
pub fn push_all(out: &mut Vec<u8>, s: &[u8])
    ensures
        final(out)@ == old(out)@ + s@,
{
    let ghost start = out@;
    let mut i: usize = 0;
    while i < s.len()
        invariant
            i <= s@.len(),
            out@ == start + s@.take(i as int),
        decreases s@.len() - i,
    {
        out.push(s[i]);
        assert(s@.take(i + 1) =~= s@.take(i as int).push(s@[i as int]));
        i += 1;
    }
    assert(s@.take(s@.len() as int) =~= s@);
}

/// Append the bytes of a literal to `out`.
pub fn push_lit(out: &mut Vec<u8>, l: &str)
    ensures
        final(out)@ == old(out)@ + lit(l),
{
    push_all(out, l.as_bytes());
}

/// A fresh vector holding the bytes of a literal.
pub fn lit_vec(l: &str) -> (r: Vec<u8>)
    ensures
        r@ == lit(l),
{
    let mut out: Vec<u8> = Vec::new();
    push_lit(&mut out, l);
    assert(out@ =~= lit(l));
    out
}

/// An owned copy of `s`.
pub fn to_vec(s: &[u8]) -> (r: Vec<u8>)
    ensures
        r@ == s@,
{
    let mut out: Vec<u8> = Vec::new();
    push_all(&mut out, s);
    assert(out@ =~= s@);
    out
}

/// `s[lo..hi]`.
pub fn slice_of(s: &[u8], lo: usize, hi: usize) -> (r: &[u8])
    requires
        lo <= hi <= s@.len(),
    ensures
        r@ == s@.subrange(lo as int, hi as int),
{
    &s[lo..hi]
}

// ---------------------------------------------------------------------------------------------
// Trimming and searching
// ---------------------------------------------------------------------------------------------

pub fn byte_is_ws(b: u8) -> (r: bool)
    ensures
        r == is_ws(b),
{
    b == 32 || (b >= 9 && b <= 13)
}

/// Leading white space is part of the string.
pub proof fn lemma_lead_ws_le(s: Seq<u8>)
    ensures
        lead_ws(s) <= s.len(),
        trim_start_spec(s).len() == s.len() - lead_ws(s),
    decreases s.len(),
{
    if s.len() > 0 && is_ws(s[0]) {
        lemma_lead_ws_le(s.drop_first());
    }
}

proof fn lemma_lead_ws(s: Seq<u8>, i: int)
    requires
        0 <= i <= s.len(),
        forall|j: int| 0 <= j < i ==> is_ws(#[trigger] s[j]),
        i == s.len() || !is_ws(s[i]),
    ensures
        lead_ws(s) == i,
    decreases i,
{
    if i > 0 {
        lemma_lead_ws(s.drop_first(), i - 1);
    }
}

proof fn lemma_trail_ws(s: Seq<u8>, k: int)
    requires
        0 <= k <= s.len(),
        forall|j: int| s.len() - k <= j < s.len() ==> is_ws(#[trigger] s[j]),
        k == s.len() || !is_ws(s[s.len() - k - 1]),
    ensures
        trail_ws(s) == k,
    decreases k,
{
    if k > 0 {
        lemma_trail_ws(s.drop_last(), k - 1);
    }
}

/// `s` without leading white space.
pub fn trim_start(s: &[u8]) -> (r: &[u8])
    ensures
        r@ == trim_start_spec(s@),
        r@.len() <= s@.len(),
{
    let mut i: usize = 0;
    while i < s.len() && byte_is_ws(s[i])
        invariant
            i <= s@.len(),
            forall|j: int| 0 <= j < i ==> is_ws(#[trigger] s@[j]),
        decreases s@.len() - i,
    {
        i += 1;
    }
    proof {
        lemma_lead_ws(s@, i as int);
    }
    &s[i..s.len()]
}

/// `s` without trailing white space.
pub fn trim_end(s: &[u8]) -> (r: &[u8])
    ensures
        r@ == trim_end_spec(s@),
{
    let mut k: usize = 0;
    while k < s.len() && byte_is_ws(s[s.len() - 1 - k])
        invariant
            k <= s@.len(),
            forall|j: int| s@.len() - k <= j < s@.len() ==> is_ws(#[trigger] s@[j]),
        decreases s@.len() - k,
    {
        k += 1;
    }
    proof {
        lemma_trail_ws(s@, k as int);
    }
    &s[0..s.len() - k]
}

/// `s` without leading and trailing white space.
pub fn trim(s: &[u8]) -> (r: &[u8])
    ensures
        r@ == trim_spec(s@),
{
    trim_end(trim_start(s))
}

/// First position of byte `b` in `s`.
pub fn find_byte(s: &[u8], b: u8) -> (r: Option<usize>)
    ensures
        match r {
            Some(i) => first_at(s@, b, i as int),
            None => forall|j: int| 0 <= j < s@.len() ==> s@[j] != b,
        },
{
    let mut i: usize = 0;
    while i < s.len()
        invariant
            i <= s@.len(),
            forall|j: int| 0 <= j < i ==> s@[j] != b,
        decreases s@.len() - i,
    {
        if s[i] == b {
            return Some(i);
        }
        i += 1;
    }
    None
}

/// Whether `n` occurs in `h` at `i`.
pub fn matches_at(h: &[u8], n: &[u8], i: usize) -> (r: bool)
    ensures
        r == occurs_at(h@, n@, i as int),
{
    if i > h.len() || n.len() > h.len() - i {
        return false;
    }
    let hl = h.len();
    let mut k: usize = 0;
    while k < n.len()
        invariant
            hl == h@.len(),
            k <= n@.len(),
            i <= h@.len(),
            i + n@.len() <= h@.len(),
            forall|j: int| 0 <= j < k ==> h@[i + j] == n@[j],
        decreases n@.len() - k,
    {
        if h[i + k] != n[k] {
            assert(h@.subrange(i as int, i + n@.len())[k as int] != n@[k as int]);
            return false;
        }
        k += 1;
    }
    assert(h@.subrange(i as int, i + n@.len()) =~= n@);
    true
}

/// First occurrence of `n` in `h`.
pub fn find_sub(h: &[u8], n: &[u8]) -> (r: Option<usize>)
    ensures
        find_spec(h@, n@, r),
{
    if n.len() > h.len() {
        return None;
    }
    let mut i: usize = 0;
    let last: usize = h.len() - n.len();
    loop
        invariant
            n@.len() <= h@.len(),
            last == h@.len() - n@.len(),
            i <= last,
            forall|j: int| 0 <= j < i ==> !occurs_at(h@, n@, j),
        decreases last - i,
    {
        if matches_at(h, n, i) {
            return Some(i);
        }
        if i == last {
            return None;
        }
        i += 1;
    }
}

/// Whether `s` begins with `p`.
pub fn starts_with(s: &[u8], p: &[u8]) -> (r: bool)
    ensures
        r == (p@.len() <= s@.len() && s@.take(p@.len() as int) == p@),
{
    let r = matches_at(s, p, 0);
    proof {
        if p@.len() <= s@.len() {
            assert(s@.take(p@.len() as int) =~= s@.subrange(0, p@.len() as int));
        }
    }
    r
}

// ---------------------------------------------------------------------------------------------
// Decimal numbers
// ---------------------------------------------------------------------------------------------

proof fn lemma_digits_val_prefix(s: Seq<u8>, i: int)
    requires
        0 <= i <= s.len(),
        all_digits(s),
    ensures
        digits_val(s.take(i)) <= digits_val(s),
    decreases s.len() - i,
{
    if i < s.len() {
        lemma_digits_val_prefix(s, i + 1);
        assert(s.take(i + 1).drop_last() =~= s.take(i));
        assert(s.take(i + 1).last() == s[i]);
        assert(is_digit(s[i]));
    } else {
        assert(s.take(i) =~= s);
    }
}

/// Parse an unsigned decimal numeral (optional `+`, then digits) no greater than `max`.
fn parse_dec(s: &[u8], max: u64) -> (r: Option<u64>)
    requires
        max >= 9,
    ensures
        r matches Some(v) ==> parse_dec_spec(s@, max as nat) == Some(v as nat),
        r is None ==> parse_dec_spec(s@, max as nat) is None,
{
    let start: usize = if s.len() > 0 && s[0] == 43 { 1 } else { 0 };
    let ghost d = numeral_digits(s@);
    assert(d =~= s@.subrange(start as int, s@.len() as int));
    if start >= s.len() {
        assert(d.len() == 0);
        return None;
    }
    let mut v: u64 = 0;
    let mut i: usize = start;
    while i < s.len()
        invariant
            start <= i <= s@.len(),
            max >= 9,
            d == numeral_digits(s@),
            d =~= s@.subrange(start as int, s@.len() as int),
            forall|j: int| 0 <= j < i - start ==> is_digit(#[trigger] d[j]),
            v as nat == digits_val(d.take(i - start)),
            v <= max,
        decreases s@.len() - i,
    {
        let c = s[i];
        if c < 48 || c > 57 {
            assert(!is_digit(d[i - start]));
            return None;
        }
        assert(d.take(i - start + 1).drop_last() =~= d.take(i - start));
        assert(d.take(i - start + 1).last() == c);
        let dig: u64 = (c - 48) as u64;
        if v > (max - dig) / 10 {
            assert(v * 10 + dig > max) by (nonlinear_arith)
                requires
                    v > (max - dig) / 10,
                    dig <= 9,
                    max >= 9,
            ;
            // The prefix already exceeds `max`; it can only grow, unless a non-digit follows.
            let ghost big = digits_val(d.take(i - start + 1));
            assert(big > max);
            let mut k: usize = i + 1;
            while k < s.len()
                invariant
                    start <= i < k <= s@.len(),
                    d == numeral_digits(s@),
                    big == digits_val(d.take(i - start + 1)),
                    big > max,
                    d =~= s@.subrange(start as int, s@.len() as int),
                    forall|j: int| 0 <= j < k - start ==> is_digit(#[trigger] d[j]),
                decreases s@.len() - k,
            {
                if s[k] < 48 || s[k] > 57 {
                    assert(!is_digit(d[k - start]));
                    return None;
                }
                k += 1;
            }
            proof {
                lemma_digits_val_prefix(d, i - start + 1);
            }
            assert(all_digits(d));
            return None;
        }
        assert(v * 10 + dig <= max) by (nonlinear_arith)
            requires
                v <= (max - dig) / 10,
                dig <= 9,
                max >= 9,
        ;
        v = v * 10 + dig;
        i += 1;
    }
    assert(d.take(i - start) =~= d);
    Some(v)
}

pub fn parse_u32(s: &[u8]) -> (r: Option<u32>)
    ensures
        r matches Some(v) ==> parse_dec_spec(s@, u32::MAX as nat) == Some(v as nat),
        r is None ==> parse_dec_spec(s@, u32::MAX as nat) is None,
{
    match parse_dec(s, 0xffff_ffffu64) {
        Some(v) => Some(v as u32),
        None => None,
    }
}

pub fn parse_u64(s: &[u8]) -> (r: Option<u64>)
    ensures
        r matches Some(v) ==> parse_dec_spec(s@, u64::MAX as nat) == Some(v as nat),
        r is None ==> parse_dec_spec(s@, u64::MAX as nat) is None,
{
    parse_dec(s, 0xffff_ffff_ffff_ffffu64)
}

/// Signed decimal parse as Rust's `i64` `FromStr` does it: an optional `-` or `+`, then at
/// least one digit, the value within `i64`.
pub open spec fn parse_i64_spec(s: Seq<u8>) -> Option<int> {
    if s.len() > 0 && s[0] == 45 {
        let d = s.drop_first();
        if d.len() > 0 && d[0] == 43 {
            None
        } else {
            match parse_dec_spec(d, 9223372036854775808) {
                Some(n) => Some(-n),
                None => None,
            }
        }
    } else {
        match parse_dec_spec(s, i64::MAX as nat) {
            Some(n) => Some(n as int),
            None => None,
        }
    }
}

pub fn parse_i64(s: &[u8]) -> (r: Option<i64>)
    ensures
        r matches Some(v) ==> parse_i64_spec(s@) == Some(v as int),
        r is None ==> parse_i64_spec(s@) is None,
{
    if s.len() > 0 && s[0] == 45 {
        let d = slice_of(s, 1, s.len());
        assert(d@ =~= s@.drop_first());
        if d.len() > 0 && d[0] == 43 {
            return None;
        }
        match parse_dec(d, 9223372036854775808u64) {
            Some(v) => if v == 9223372036854775808u64 {
                Some(i64::MIN)
            } else {
                Some(-(v as i64))
            },
            None => None,
        }
    } else {
        match parse_dec(s, 9223372036854775807u64) {
            Some(v) => Some(v as i64),
            None => None,
        }
    }
}

pub fn parse_usize(s: &[u8]) -> (r: Option<usize>)
    ensures
        r matches Some(v) ==> parse_dec_spec(s@, usize::MAX as nat) == Some(v as nat),
        r is None ==> parse_dec_spec(s@, usize::MAX as nat) is None,
{
    match parse_dec(s, usize::MAX as u64) {
        Some(v) => Some(v as usize),
        None => None,
    }
}


// ---------------------------------------------------------------------------------------------
// Splitting
// ---------------------------------------------------------------------------------------------

/// `s` split on every occurrence of `sep` (like `str::split` with a single-byte pattern: the
/// empty input yields one empty piece, and a trailing separator yields a trailing empty piece).
pub open spec fn split_spec(s: Seq<u8>, sep: u8) -> Seq<Seq<u8>>
    decreases s.len(),
{
    if s.len() == 0 {
        seq![Seq::<u8>::empty()]
    } else {
        let p = split_spec(s.drop_last(), sep);
        if s.last() == sep {
            p.push(Seq::<u8>::empty())
        } else {
            p.update(p.len() - 1, p.last().push(s.last()))
        }
    }
}

pub proof fn lemma_split_nonempty(s: Seq<u8>, sep: u8)
    ensures
        split_spec(s, sep).len() >= 1,
    decreases s.len(),
{
    if s.len() > 0 {
        lemma_split_nonempty(s.drop_last(), sep);
    }
}

/// The views of a vector of byte strings.
pub open spec fn views(v: Seq<Vec<u8>>) -> Seq<Seq<u8>> {
    v.map_values(|x: Vec<u8>| x@)
}

/// Split `s` on every `sep` byte.
pub fn split_on(s: &[u8], sep: u8) -> (r: Vec<Vec<u8>>)
    ensures
        views(r@) == split_spec(s@, sep),
        r@.len() >= 1,
{
    let mut out: Vec<Vec<u8>> = Vec::new();
    let mut cur: Vec<u8> = Vec::new();
    let mut i: usize = 0;
    assert(s@.take(0) =~= Seq::<u8>::empty());
    while i < s.len()
        invariant
            i <= s@.len(),
            views(out@).push(cur@) == split_spec(s@.take(i as int), sep),
        decreases s@.len() - i,
    {
        proof {
            lemma_split_nonempty(s@.take(i as int), sep);
        }
        assert(s@.take(i + 1).drop_last() =~= s@.take(i as int));
        let c = s[i];
        if c == sep {
            let done = cur;
            cur = Vec::new();
            let ghost before = views(out@);
            out.push(done);
            assert(views(out@) =~= before.push(done@));
            assert(views(out@).push(cur@) =~= before.push(done@).push(Seq::<u8>::empty()));
        } else {
            let ghost before = views(out@);
            cur.push(c);
            assert(views(out@).push(cur@) =~= before.push(cur@));
        }
        i += 1;
    }
    let ghost before = views(out@);
    out.push(cur);
    assert(views(out@) =~= before.push(cur@));
    assert(s@.take(s@.len() as int) =~= s@);
    out
}

/// A copy of a slice of numbers.
pub fn to_u32_vec(s: &[u32]) -> (r: Vec<u32>)
    ensures
        r@ == s@,
{
    let mut out: Vec<u32> = Vec::new();
    let mut i: usize = 0;
    while i < s.len()
        invariant
            i <= s@.len(),
            out@ == s@.take(i as int),
        decreases s@.len() - i,
    {
        out.push(s[i]);
        assert(s@.take(i + 1) =~= s@.take(i as int).push(s@[i as int]));
        i += 1;
    }
    assert(s@.take(i as int) =~= s@);
    out
}

} // verus!
