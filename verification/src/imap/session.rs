//! Pieces of the IMAP session that stand on their own: the connection state, LIST wildcard
//! matching (RFC 9051 §6.3.9) and sequence-set compaction of UID lists.
use vstd::prelude::*;
use crate::bytes::push_lit;
use crate::smtp::push_dec;
use crate::text::lossy_string;
use crate::bytes::slice_of;
use crate::store::{Mailbox, SpecialUse};
use super::parser::Section;
use super::sequence::SequenceSet;

verus! {

/// IMAP connection state (RFC 9051 §3).
#[derive(Debug, Clone, Copy, PartialEq, Eq, Structural)]
pub enum State {
    NotAuthenticated,
    Authenticated,
    Selected,
    Logout,
}

// ---------------------------------------------------------------------------------------------
// LIST wildcards
// ---------------------------------------------------------------------------------------------

/// Whether `p[pi..]` matches `n[ni..]`: `*` matches any run of bytes (across the `/` hierarchy
/// delimiter), `%` any run of bytes without `/`, any other byte itself.
pub open spec fn wm(p: Seq<u8>, n: Seq<u8>, pi: int, ni: int) -> bool
    decreases p.len() - pi, n.len() - ni,
{
    if pi < 0 || ni < 0 || pi >= p.len() {
        pi == p.len() && ni == n.len()
    } else if p[pi] == 42 {
        wm(p, n, pi + 1, ni) || (ni < n.len() && wm(p, n, pi, ni + 1))
    } else if p[pi] == 37 {
        wm(p, n, pi + 1, ni) || (ni < n.len() && n[ni] != 47 && wm(p, n, pi, ni + 1))
    } else {
        ni < n.len() && n[ni] == p[pi] && wm(p, n, pi + 1, ni + 1)
    }
}

/// The work bound of a match: a pattern/name pair whose length product exceeds it does not
/// match (real mailbox names and patterns are a few bytes).
pub const MAX_WILDCARD_WORK: usize = 4000000;

/// IMAP LIST wildcard matching with its work bound.
pub open spec fn wildcard_spec(p: Seq<u8>, n: Seq<u8>) -> bool {
    if p.len() * n.len() > MAX_WILDCARD_WORK {
        false
    } else {
        wm(p, n, 0, 0)
    }
}

/// IMAP LIST wildcard match on bytes, in O(len(p)·len(n)) time and O(len(n)) space: row `pi`
/// of the table holds whether `p[pi..]` matches each suffix of the name.
pub fn wildcard_match_bytes(p: &[u8], n: &[u8]) -> (r: bool)
    ensures
        r == wildcard_spec(p@, n@),
{
    let pl = p.len();
    let nl = n.len();
    if pl == 0 {
        assert(wm(p@, n@, 0, 0) == (n@.len() == 0));
        return nl == 0;
    }
    if nl > MAX_WILDCARD_WORK / pl {
        assert(pl * nl > MAX_WILDCARD_WORK) by (nonlinear_arith)
            requires
                pl > 0,
                nl > MAX_WILDCARD_WORK / pl,
        ;
        return false;
    }
    assert(pl * nl <= MAX_WILDCARD_WORK) by (nonlinear_arith)
        requires
            pl > 0,
            nl <= MAX_WILDCARD_WORK / pl,
    ;
    assert(nl <= MAX_WILDCARD_WORK) by (nonlinear_arith)
        requires
            pl > 0,
            nl <= MAX_WILDCARD_WORK / pl,
    ;
    // The row below the pattern's end: only the empty name suffix matches.
    let mut next: Vec<bool> = Vec::new();
    let mut k: usize = 0;
    while k <= nl
        invariant
            k <= nl + 1,
            nl <= MAX_WILDCARD_WORK,
            nl == n@.len(),
            pl == p@.len(),
            next@.len() == k,
            forall|j: int| 0 <= j < k ==> next@[j] == wm(p@, n@, pl as int, j),
        decreases nl + 1 - k,
    {
        next.push(k == nl);
        k += 1;
    }
    let mut pi = pl;
    while pi > 0
        invariant
            pi <= pl,
            nl <= MAX_WILDCARD_WORK,
            nl == n@.len(),
            pl == p@.len(),
            next@.len() == nl + 1,
            forall|j: int| 0 <= j <= nl ==> next@[j] == wm(p@, n@, pi as int, j),
        decreases pi,
    {
        let q = pi - 1;
        let c = p[q];
        let mut cur: Vec<bool> = Vec::new();
        let mut t: usize = 0;
        while t <= nl
            invariant
                t <= nl + 1,
                nl <= MAX_WILDCARD_WORK,
                cur@.len() == t,
            decreases nl + 1 - t,
        {
            cur.push(false);
            t += 1;
        }
        let mut ni = nl + 1;
        while ni > 0
            invariant
                ni <= nl + 1,
                q < pl,
                c == p@[q as int],
                nl == n@.len(),
                pl == p@.len(),
                cur@.len() == nl + 1,
                next@.len() == nl + 1,
                forall|j: int| 0 <= j <= nl ==> next@[j] == wm(p@, n@, q + 1, j),
                forall|j: int| ni <= j <= nl ==> cur@[j] == wm(p@, n@, q as int, j),
            decreases ni,
        {
            let i = ni - 1;
            let v = if c == 42 {
                next[i] || (i < nl && cur[i + 1])
            } else if c == 37 {
                next[i] || (i < nl && n[i] != 47 && cur[i + 1])
            } else {
                i < nl && n[i] == c && next[i + 1]
            };
            assert(v == wm(p@, n@, q as int, i as int));
            cur.set(i, v);
            ni = i;
        }
        next = cur;
        pi = q;
    }
    next[0]
}

/// A pattern byte that is neither wildcard.
pub open spec fn literal_pattern(p: Seq<u8>) -> bool {
    forall|i: int| 0 <= i < p.len() ==> #[trigger] p[i] != 42 && p[i] != 37
}

proof fn lemma_literal_wm(p: Seq<u8>, n: Seq<u8>, pi: int, ni: int)
    requires
        literal_pattern(p),
        0 <= pi <= p.len(),
        0 <= ni <= n.len(),
    ensures
        wm(p, n, pi, ni) <==> p.subrange(pi, p.len() as int) == n.subrange(ni, n.len() as int),
    decreases p.len() - pi,
{
    if pi < p.len() {
        assert(p[pi] != 42 && p[pi] != 37);
        if ni < n.len() {
            lemma_literal_wm(p, n, pi + 1, ni + 1);
            let a = p.subrange(pi, p.len() as int);
            let b = n.subrange(ni, n.len() as int);
            assert(a.drop_first() =~= p.subrange(pi + 1, p.len() as int));
            assert(b.drop_first() =~= n.subrange(ni + 1, n.len() as int));
            assert(a[0] == p[pi] && b[0] == n[ni]);
            if a == b {
                assert(a[0] == b[0]);
                assert(a.drop_first() == b.drop_first());
            }
            if wm(p, n, pi, ni) {
                assert(n[ni] == p[pi]);
                assert(wm(p, n, pi + 1, ni + 1));
                assert(a.drop_first() == b.drop_first());
                assert forall|k: int| 0 <= k < a.len() implies a[k] == b[k] by {
                    if k > 0 {
                        assert(a[k] == a.drop_first()[k - 1]);
                        assert(b[k] == b.drop_first()[k - 1]);
                    }
                }
                assert(a =~= b);
            }
            assert(wm(p, n, pi, ni) ==> a == b);
        } else {
            assert(n.subrange(ni, n.len() as int).len() == 0);
            assert(p.subrange(pi, p.len() as int).len() > 0);
            assert(!wm(p, n, pi, ni));
        }
    } else {
        assert(p.subrange(pi, p.len() as int) =~= Seq::<u8>::empty());
        if ni < n.len() {
            assert(n.subrange(ni, n.len() as int).len() > 0);
            assert(!wm(p, n, pi, ni));
        } else {
            assert(n.subrange(ni, n.len() as int) =~= Seq::<u8>::empty());
        }
    }
}

/// A pattern without `*` or `%` matches exactly the name equal to it.
pub proof fn literal_pattern_matches_only_itself(p: Seq<u8>, n: Seq<u8>)
    requires
        literal_pattern(p),
        p.len() * n.len() <= MAX_WILDCARD_WORK,
    ensures
        wildcard_spec(p, n) <==> p == n,
{
    lemma_literal_wm(p, n, 0, 0);
    assert(p.subrange(0, p.len() as int) =~= p);
    assert(n.subrange(0, n.len() as int) =~= n);
}

proof fn lemma_trailing_star(p: Seq<u8>, n: Seq<u8>, ni: int)
    requires
        p.len() > 0,
        p.last() == 42,
        0 <= ni <= n.len(),
    ensures
        wm(p, n, p.len() - 1, ni),
    decreases n.len() - ni,
{
    let last = p.len() - 1;
    assert(p[last] == 42);
    if ni < n.len() {
        lemma_trailing_star(p, n, ni + 1);
        assert(wm(p, n, last, ni + 1));
    } else {
        assert(wm(p, n, p.len() as int, ni));
    }
}

/// `*` matches every name, the delimiter included.
pub proof fn star_matches_every_name(n: Seq<u8>)
    requires
        n.len() <= MAX_WILDCARD_WORK,
    ensures
        wildcard_spec(seq![42u8], n),
{
    lemma_trailing_star(seq![42u8], n, 0);
}

proof fn lemma_trailing_percent(p: Seq<u8>, n: Seq<u8>, ni: int)
    requires
        p.len() > 0,
        p.last() == 37,
        0 <= ni <= n.len(),
    ensures
        wm(p, n, p.len() - 1, ni) <==> forall|j: int| ni <= j < n.len() ==> #[trigger] n[j] != 47,
    decreases n.len() - ni,
{
    let last = p.len() - 1;
    assert(p[last] == 37);
    if ni < n.len() {
        lemma_trailing_percent(p, n, ni + 1);
        assert(!(wm(p, n, p.len() as int, ni)));
        if n[ni] == 47 {
            assert(!(forall|j: int| ni <= j < n.len() ==> #[trigger] n[j] != 47));
        } else {
            assert((forall|j: int| ni <= j < n.len() ==> #[trigger] n[j] != 47) <==> (forall|j: int|
                ni + 1 <= j < n.len() ==> #[trigger] n[j] != 47));
        }
    } else {
        assert(wm(p, n, p.len() as int, ni));
    }
}

/// `%` matches exactly the names that stay within one hierarchy level (no `/`).
pub proof fn percent_matches_one_level(n: Seq<u8>)
    requires
        n.len() <= MAX_WILDCARD_WORK,
    ensures
        wildcard_spec(seq![37u8], n) <==> forall|j: int| 0 <= j < n.len() ==> #[trigger] n[j] != 47,
{
    lemma_trailing_percent(seq![37u8], n, 0);
}

/// IMAP LIST wildcard match: `*` matches across the hierarchy delimiter `/`, `%` within one
/// level.
pub fn wildcard_match(pattern: &str, name: &str) -> (r: bool)
    ensures
        r == wildcard_spec(crate::bytes::lit(pattern), crate::bytes::lit(name)),
{
    wildcard_match_bytes(pattern.as_bytes(), name.as_bytes())
}

// ---------------------------------------------------------------------------------------------
// Sequence-set compaction
// ---------------------------------------------------------------------------------------------

/// The last index of the run of consecutive values starting at `i`.
pub open spec fn run_end(s: Seq<u32>, i: int) -> int
    decreases s.len() - i,
{
    if i < 0 || i + 1 >= s.len() {
        i
    } else if s[i + 1] == s[i] + 1 {
        run_end(s, i + 1)
    } else {
        i
    }
}

pub proof fn lemma_run_end(s: Seq<u32>, i: int)
    requires
        0 <= i < s.len(),
    ensures
        i <= run_end(s, i) < s.len(),
        s[run_end(s, i) as int] == s[i] + (run_end(s, i) - i),
    decreases s.len() - i,
{
    if i + 1 < s.len() && s[i + 1] == s[i] + 1 {
        lemma_run_end(s, i + 1);
    }
}

/// One run as a sequence-set item: `n` or `lo:hi`.
pub open spec fn run_item(lo: u32, hi: u32) -> Seq<u8> {
    if lo == hi {
        crate::smtp::dec_spec(lo as nat)
    } else {
        crate::smtp::dec_spec(lo as nat) + seq![58u8] + crate::smtp::dec_spec(hi as nat)
    }
}

/// The items of the runs from index `i` on.
pub open spec fn runs_from(s: Seq<u32>, i: int) -> Seq<Seq<u8>>
    decreases s.len() - i,
{
    if i < 0 || i >= s.len() {
        seq![]
    } else {
        proof {
            lemma_run_end(s, i);
        }
        seq![run_item(s[i], s[run_end(s, i)])] + runs_from(s, run_end(s, i) + 1)
    }
}

/// Byte strings joined by `,`.
pub open spec fn join_commas(ps: Seq<Seq<u8>>) -> Seq<u8>
    decreases ps.len(),
{
    if ps.len() == 0 {
        seq![]
    } else if ps.len() == 1 {
        ps[0]
    } else {
        join_commas(ps.drop_last()) + seq![44u8] + ps.last()
    }
}

proof fn lemma_join_commas_push(ps: Seq<Seq<u8>>, x: Seq<u8>)
    ensures
        join_commas(ps.push(x)) == if ps.len() == 0 {
            x
        } else {
            join_commas(ps) + seq![44u8] + x
        },
{
    assert(ps.push(x).drop_last() =~= ps);
}

/// A UID list as an IMAP sequence-set with each run of consecutive values collapsed to `lo:hi`.
pub open spec fn seqset_spec(s: Seq<u32>) -> Seq<u8> {
    join_commas(runs_from(s, 0))
}

/// Render a sorted UID list as a compact IMAP sequence-set (RFC 7162 VANISHED benefits from
/// ranges).
pub fn to_sequence_set(sorted_uids: &[u32]) -> (r: String)
    ensures
        r@ == crate::text::utf8_lossy(seqset_spec(sorted_uids@)),
{
    let s = sorted_uids;
    let mut out: Vec<u8> = Vec::new();
    let ghost mut done: Seq<Seq<u8>> = seq![];
    let mut first = true;
    let mut i: usize = 0;
    while i < s.len()
        invariant
            i <= s@.len(),
            first == (done.len() == 0),
            out@ == join_commas(done),
            done + runs_from(s@, i as int) == runs_from(s@, 0),
        decreases s@.len() - i,
    {
        proof {
            lemma_run_end(s@, i as int);
        }
        let start = s[i];
        let mut end = start;
        let mut j = i;
        while j < s.len() - 1 && s[j + 1] as u64 == end as u64 + 1
            invariant
                i <= j < s@.len(),
                run_end(s@, j as int) == run_end(s@, i as int),
                end == s@[j as int],
            decreases s@.len() - j,
        {
            end = s[j + 1];
            j += 1;
        }
        assert(run_end(s@, j as int) == j);
        let mut item: Vec<u8> = Vec::new();
        push_dec(&mut item, start as usize);
        if start != end {
            item.push(58);
            push_dec(&mut item, end as usize);
        }
        assert(item@ =~= run_item(start, end));
        let ghost before = done;
        if !first {
            out.push(44);
        }
        first = false;
        crate::bytes::push_all(&mut out, item.as_slice());
        proof {
            lemma_join_commas_push(done, item@);
            done = done.push(item@);
            assert(before + runs_from(s@, i as int) =~= done + runs_from(s@, j + 1));
        }
        assert(out@ =~= join_commas(done));
        i = j + 1;
    }
    assert(done + Seq::<Seq<u8>>::empty() =~= done);
    lossy_string(out.as_slice())
}

// ---------------------------------------------------------------------------------------------
// Message targets
// ---------------------------------------------------------------------------------------------

/// Whether the message at index `i` is addressed by the set: by its UID (`*` = the highest UID)
/// or by its sequence number `i + 1` (`*` = the message count, as a 32-bit number).
pub open spec fn targeted(mb: Mailbox, set: SequenceSet, uid_mode: bool, i: int) -> bool {
    let ms = mb.messages@;
    0 <= i < ms.len() && if uid_mode {
        set.has(ms[i].uid, if ms.len() == 0 { 0 } else { ms.last().uid })
    } else {
        i + 1 <= (ms.len() as u32) && set.has((i + 1) as u32, ms.len() as u32)
    }
}

/// The indices of the messages a sequence set addresses, ascending and without repeats.
pub fn resolve_targets(mb: &Mailbox, set: &SequenceSet, uid_mode: bool) -> (r: Vec<usize>)
    ensures
        forall|a: int, b: int| 0 <= a < b < r@.len() ==> r@[a] < r@[b],
        forall|i: int| 0 <= i < r@.len() ==> targeted(*mb, *set, uid_mode, r@[i] as int),
        forall|i: int| targeted(*mb, *set, uid_mode, i) ==> r@.contains(i as usize),
{
    let n = mb.messages.len();
    let max = mb.max_uid();
    let count = n as u32;
    let mut out: Vec<usize> = Vec::new();
    let mut i: usize = 0;
    while i < n
        invariant
            i <= n,
            n == mb.messages@.len(),
            count == n as u32,
            max == (if n == 0 { 0 } else { mb.messages@.last().uid }),
            forall|a: int, b: int| 0 <= a < b < out@.len() ==> out@[a] < out@[b],
            forall|a: int| 0 <= a < out@.len() ==> out@[a] < i,
            forall|k: int| 0 <= k < out@.len() ==> targeted(*mb, *set, uid_mode, out@[k] as int),
            forall|k: int| 0 <= k < i && targeted(*mb, *set, uid_mode, k) ==> out@.contains(k as usize),
        decreases n - i,
    {
        let hit = if uid_mode {
            set.contains(mb.messages[i].uid, max)
        } else {
            i < count as usize && set.contains((i + 1) as u32, count)
        };
        let ghost before = out@;
        if hit {
            out.push(i);
        }
        assert forall|k: int| 0 <= k < i + 1 && targeted(*mb, *set, uid_mode, k) implies out@.contains(k as usize) by {
            if k < i {
                let j = choose|j: int| 0 <= j < before.len() && before[j] == k as usize;
                assert(out@[j] == k as usize);
            } else {
                assert(out@[before.len() as int] == i);
            }
        }
        i += 1;
    }
    out
}

// ---------------------------------------------------------------------------------------------
// INTERNALDATE input
// ---------------------------------------------------------------------------------------------

/// Number of leading `"` bytes.
pub open spec fn lead_quotes(s: Seq<u8>) -> nat
    decreases s.len(),
{
    if s.len() > 0 && s[0] == 34 { 1 + lead_quotes(s.drop_first()) } else { 0 }
}

/// Number of trailing `"` bytes.
pub open spec fn trail_quotes(s: Seq<u8>) -> nat
    decreases s.len(),
{
    if s.len() > 0 && s.last() == 34 { 1 + trail_quotes(s.drop_last()) } else { 0 }
}

proof fn lemma_quotes(s: Seq<u8>)
    ensures
        lead_quotes(s) <= s.len(),
        trail_quotes(s) <= s.len(),
        forall|i: int| 0 <= i < lead_quotes(s) ==> s[i] == 34,
        lead_quotes(s) < s.len() ==> s[lead_quotes(s) as int] != 34,
        forall|i: int| s.len() - trail_quotes(s) <= i < s.len() ==> s[i] == 34,
        trail_quotes(s) < s.len() ==> s[s.len() - trail_quotes(s) - 1] != 34,
    decreases s.len(),
{
    if s.len() > 0 {
        lemma_quotes(s.drop_first());
        lemma_quotes(s.drop_last());
        if s[0] == 34 {
            assert forall|i: int| 0 <= i < lead_quotes(s) implies s[i] == 34 by {
                if i > 0 {
                    assert(s[i] == s.drop_first()[i - 1]);
                }
            }
        }
        if s.last() == 34 {
            assert forall|i: int| s.len() - trail_quotes(s) <= i < s.len() implies s[i] == 34 by {
                if i < s.len() - 1 {
                    assert(s[i] == s.drop_last()[i]);
                }
            }
        }
    }
}

/// `s` without its leading and trailing `"` bytes.
pub open spec fn unquote(s: Seq<u8>) -> Seq<u8> {
    let a = s.subrange(lead_quotes(s) as int, s.len() as int);
    a.subrange(0, a.len() - trail_quotes(a))
}

fn unquote_exec(s: &[u8]) -> (r: &[u8])
    ensures
        r@ == unquote(s@),
{
    proof {
        lemma_quotes(s@);
    }
    let mut a: usize = 0;
    while a < s.len() && s[a] == 34
        invariant
            a <= lead_quotes(s@),
            lead_quotes(s@) <= s@.len(),
            forall|i: int| 0 <= i < lead_quotes(s@) ==> s@[i] == 34,
            lead_quotes(s@) < s@.len() ==> s@[lead_quotes(s@) as int] != 34,
        decreases s@.len() - a,
    {
        a += 1;
    }
    let t = slice_of(s, a, s.len());
    proof {
        lemma_quotes(t@);
    }
    let mut b: usize = t.len();
    while b > 0 && t[b - 1] == 34
        invariant
            t@.len() - trail_quotes(t@) <= b <= t@.len(),
            forall|i: int| t@.len() - trail_quotes(t@) <= i < t@.len() ==> t@[i] == 34,
            trail_quotes(t@) < t@.len() ==> t@[t@.len() - trail_quotes(t@) - 1] != 34,
        decreases b,
    {
        b -= 1;
    }
    slice_of(t, 0, b)
}

/// A time field: its value, 0 when absent or not a number.
pub open spec fn time_field(tp: Seq<Seq<u8>>, k: int) -> int {
    if 0 <= k < tp.len() {
        match crate::bytes::parse_i64_spec(tp[k]) {
            Some(v) => v,
            None => 0,
        }
    } else {
        0
    }
}

/// An IMAP INTERNALDATE `"dd-Mon-yyyy hh:mm:ss +zzzz"` as Unix milliseconds (the zone is not
/// applied): `None` unless the day is 1 to 31, the month a known abbreviation, the year 1 to
/// 9999, and the hour, minute and second at most 23, 59 and 60; a time before 1970 gives 0.
pub open spec fn internal_date_ms(s: Seq<u8>) -> Option<u64> {
    let t = unquote(crate::bytes::trim_spec(s));
    let sp = crate::mime::next_byte(t, 32, 0);
    if sp >= t.len() {
        None
    } else {
        let date = t.subrange(0, sp);
        let rest = t.subrange(sp + 1, t.len() as int);
        let d = crate::bytes::split_spec(date, 45);
        let tm = rest.subrange(0, crate::mime::next_byte(rest, 32, 0));
        let tp = crate::bytes::split_spec(tm, 58);
        let h = time_field(tp, 0);
        let mi = time_field(tp, 1);
        let sec = time_field(tp, 2);
        if d.len() < 3 {
            None
        } else {
            match (
                crate::bytes::parse_i64_spec(d[0]),
                crate::search::month_num_spec(d[1]),
                crate::bytes::parse_i64_spec(d[2]),
            ) {
                (Some(day), Some(mon), Some(year)) => if !(1 <= day <= 31) || !(1 <= year <= 9999) || h > 23
                    || mi > 59 || sec > 60 {
                    None
                } else {
                    let total = crate::date::days_from_civil_spec(year, mon, day) * 86400 + h * 3600 + mi * 60
                        + sec;
                    Some(((if total < 0 { 0 } else { total }) * 1000) as u64)
                },
                _ => None,
            }
        }
    }
}

fn time_field_exec(tp: &Vec<Vec<u8>>, k: usize) -> (r: i64)
    ensures
        r as int == time_field(crate::bytes::views(tp@), k as int),
{
    if k < tp.len() {
        assert(crate::bytes::views(tp@)[k as int] == tp@[k as int]@);
        match crate::bytes::parse_i64(tp[k].as_slice()) {
            Some(v) => v,
            None => 0,
        }
    } else {
        0
    }
}

/// Parse an APPEND date-time into Unix milliseconds (see [`internal_date_ms`]).
pub fn parse_internal_date(s: &str) -> (r: Option<u64>)
    ensures
        r == internal_date_ms(crate::bytes::lit(s)),
{
    let t = unquote_exec(crate::bytes::trim(s.as_bytes()));
    let sp = crate::mime::scan_to(t, 32, 0);
    proof {
        crate::mime::lemma_next_byte(t@, 32, 0);
    }
    if sp >= t.len() {
        return None;
    }
    let date = slice_of(t, 0, sp);
    let rest = slice_of(t, sp + 1, t.len());
    let d = crate::bytes::split_on(date, 45);
    let te = crate::mime::scan_to(rest, 32, 0);
    proof {
        crate::mime::lemma_next_byte(rest@, 32, 0);
    }
    let tp = crate::bytes::split_on(slice_of(rest, 0, te), 58);
    let h = time_field_exec(&tp, 0);
    let mi = time_field_exec(&tp, 1);
    let sec = time_field_exec(&tp, 2);
    if d.len() < 3 {
        return None;
    }
    let ghost dv = crate::bytes::views(d@);
    assert(dv[0] == d@[0]@ && dv[1] == d@[1]@ && dv[2] == d@[2]@);
    let day = match crate::bytes::parse_i64(d[0].as_slice()) {
        Some(v) => v,
        None => return None,
    };
    let mon = match crate::search::month_num(d[1].as_slice()) {
        Some(v) => v,
        None => return None,
    };
    let year = match crate::bytes::parse_i64(d[2].as_slice()) {
        Some(v) => v,
        None => return None,
    };
    if !(1 <= day && day <= 31) || !(1 <= year && year <= 9999) || h > 23 || mi > 59 || sec > 60 {
        return None;
    }
    let days = crate::date::days_from_civil(year, mon, day);
    assert(-4000000 <= days_from_civil_spec_bound(year as int, mon as int, day as int) <= 4000000) by {
        lemma_days_bound(year as int, mon as int, day as int);
    }
    let total: i128 = days as i128 * 86400 + h as i128 * 3600 + mi as i128 * 60 + sec as i128;
    if total < 0 {
        return Some(0);
    }
    assert(total <= 4000000 * 86400 + 23 * 3600 + 59 * 60 + 60);
    Some((total as u64) * 1000)
}

spec fn days_from_civil_spec_bound(y: int, m: int, d: int) -> int {
    crate::date::days_from_civil_spec(y, m, d)
}

proof fn lemma_days_bound(y: int, m: int, d: int)
    requires
        1 <= y <= 9999,
        1 <= m <= 12,
        1 <= d <= 31,
    ensures
        -4000000 <= days_from_civil_spec_bound(y, m, d) <= 4000000,
{
    let ys = if m <= 2 { y - 1 } else { y };
    let era = ys / 400;
    let yoe = ys - era * 400;
    assert(0 <= era <= 24);
    assert(0 <= yoe < 400);
    let doy = (153 * (if m > 2 { m - 3 } else { m + 9 }) + 2) / 5 + d - 1;
    assert(0 <= doy <= 400);
    let doe = yoe * 365 + yoe / 4 - yoe / 100 + doy;
    assert(0 <= doe <= 400 * 366 + 400);
    assert(era * 146097 <= 24 * 146097) by (nonlinear_arith)
        requires
            0 <= era <= 24,
    ;
}

// ---------------------------------------------------------------------------------------------
// CREATE USE and CATENATE URL sections
// ---------------------------------------------------------------------------------------------

/// The role a SPECIAL-USE attribute names (`CREATE ... (USE (\Archive))`), case-insensitively.
pub open spec fn special_use_spec(attr: Seq<u8>) -> Option<SpecialUse> {
    let l = crate::bytes::lower_seq(attr);
    if l == crate::bytes::lit("\\sent") {
        Some(SpecialUse::Sent)
    } else if l == crate::bytes::lit("\\drafts") {
        Some(SpecialUse::Drafts)
    } else if l == crate::bytes::lit("\\trash") {
        Some(SpecialUse::Trash)
    } else if l == crate::bytes::lit("\\junk") {
        Some(SpecialUse::Junk)
    } else if l == crate::bytes::lit("\\archive") {
        Some(SpecialUse::Archive)
    } else if l == crate::bytes::lit("\\all") {
        Some(SpecialUse::All)
    } else {
        None
    }
}

fn lower_eq(a: &[u8], l: &str) -> (r: bool)
    ensures
        r == (crate::bytes::lower_seq(a@) == crate::bytes::lit(l)),
{
    let low = crate::bytes::to_lower(a);
    crate::bytes::bytes_eq(low.as_slice(), l.as_bytes())
}

/// Map a SPECIAL-USE attribute to its role.
pub fn special_use_from_attr(attr: &str) -> (r: Option<SpecialUse>)
    ensures
        r == special_use_spec(crate::bytes::lit(attr)),
{
    let a = attr.as_bytes();
    if lower_eq(a, "\\sent") {
        Some(SpecialUse::Sent)
    } else if lower_eq(a, "\\drafts") {
        Some(SpecialUse::Drafts)
    } else if lower_eq(a, "\\trash") {
        Some(SpecialUse::Trash)
    } else if lower_eq(a, "\\junk") {
        Some(SpecialUse::Junk)
    } else if lower_eq(a, "\\archive") {
        Some(SpecialUse::Archive)
    } else if lower_eq(a, "\\all") {
        Some(SpecialUse::All)
    } else {
        None
    }
}

/// Number of trailing `/` bytes.
pub open spec fn trail_slashes(s: Seq<u8>) -> nat
    decreases s.len(),
{
    if s.len() > 0 && s.last() == 47 { 1 + trail_slashes(s.drop_last()) } else { 0 }
}

/// The pieces that read as numbers, in order.
pub open spec fn numeric_parts(ps: Seq<Seq<u8>>) -> Seq<u32>
    decreases ps.len(),
{
    if ps.len() == 0 {
        seq![]
    } else {
        numeric_parts(ps.drop_last()) + match crate::bytes::parse_dec_spec(ps.last(), u32::MAX as nat) {
            Some(n) => seq![n as u32],
            None => seq![],
        }
    }
}

/// A section as a URL names it.
pub ghost enum UrlSection {
    Full,
    Header,
    Text,
    Part(Seq<u32>),
}

/// The section a CATENATE URL's `SECTION=` names (RFC 5092): HEADER, TEXT, the whole message
/// when empty, otherwise the numeric part path (its non-numeric pieces skipped; the whole
/// message when none is left). Trailing `/` are ignored.
pub open spec fn url_section_spec(s: Seq<u8>) -> UrlSection {
    let t = s.subrange(0, s.len() - trail_slashes(s));
    if crate::bytes::upper_seq(t) == crate::bytes::lit("HEADER") {
        UrlSection::Header
    } else if crate::bytes::upper_seq(t) == crate::bytes::lit("TEXT") {
        UrlSection::Text
    } else if t.len() == 0 {
        UrlSection::Full
    } else {
        let nums = numeric_parts(crate::bytes::split_spec(t, 46));
        if nums.len() == 0 {
            UrlSection::Full
        } else {
            UrlSection::Part(nums)
        }
    }
}

/// Parse the `SECTION=` fragment of an IMAP URL (for CATENATE URL parts).
pub fn parse_url_section(s: &str) -> (r: Section)
    ensures
        match url_section_spec(crate::bytes::lit(s)) {
            UrlSection::Full => r is Full,
            UrlSection::Header => r is Header,
            UrlSection::Text => r is Text,
            UrlSection::Part(nums) => r matches Section::Part(v) && v@ == nums,
        },
{
    let b = s.as_bytes();
    let mut e: usize = b.len();
    assert(b@.subrange(0, b@.len() as int) =~= b@);
    while e > 0 && b[e - 1] == 47
        invariant
            e <= b@.len(),
            trail_slashes(b@.subrange(0, e as int)) + (b@.len() - e) == trail_slashes(b@),
        decreases e,
    {
        assert(b@.subrange(0, e - 1) =~= b@.subrange(0, e as int).drop_last());
        e -= 1;
    }
    assert(trail_slashes(b@.subrange(0, e as int)) == 0);
    let t = slice_of(b, 0, e);
    let up = crate::bytes::to_upper(t);
    if crate::bytes::bytes_eq(up.as_slice(), "HEADER".as_bytes()) {
        return Section::Header;
    }
    if crate::bytes::bytes_eq(up.as_slice(), "TEXT".as_bytes()) {
        return Section::Text;
    }
    if t.len() == 0 {
        return Section::Full;
    }
    let parts = crate::bytes::split_on(t, 46);
    let ghost pv = crate::bytes::views(parts@);
    let mut nums: Vec<u32> = Vec::new();
    let mut i: usize = 0;
    while i < parts.len()
        invariant
            i <= parts@.len(),
            pv == crate::bytes::views(parts@),
            nums@ == numeric_parts(pv.take(i as int)),
        decreases parts@.len() - i,
    {
        assert(pv.take(i + 1).drop_last() =~= pv.take(i as int));
        assert(pv[i as int] == parts@[i as int]@);
        match crate::bytes::parse_u32(parts[i].as_slice()) {
            Some(n) => nums.push(n),
            None => {},
        }
        assert(nums@ =~= numeric_parts(pv.take(i + 1)));
        i += 1;
    }
    assert(pv.take(i as int) =~= pv);
    if nums.len() == 0 {
        Section::Full
    } else {
        Section::Part(nums)
    }
}

/// An unsorted id list as a compact sequence-set: sorted and without repeats first.
pub fn to_sequence_set_of(ids: &[u32]) -> (r: String)
    ensures
        exists|v: Seq<u32>|
            (forall|a: int, b: int| 0 <= a < b < v.len() ==> v[a] < v[b]) && (forall|x: u32| v.contains(x) <==> ids@.contains(x))
                && r@ == crate::text::utf8_lossy(#[trigger] seqset_spec(v)),
{
    let mut v = crate::bytes::to_u32_vec(ids);
    super::server::sort_u32(&mut v);
    let mut d: Vec<u32> = Vec::new();
    let mut i: usize = 0;
    while i < v.len()
        invariant
            i <= v@.len(),
            v@.to_multiset() == ids@.to_multiset(),
            forall|a: int, b: int| 0 <= a < b < v@.len() ==> v@[a] <= v@[b],
            forall|a: int, b: int| 0 <= a < b < d@.len() ==> d@[a] < d@[b],
            forall|a: int| 0 <= a < d@.len() ==> (i > 0 && d@[a] <= v@[i - 1]),
            forall|x: u32| d@.contains(x) <==> v@.take(i as int).contains(x),
        decreases v@.len() - i,
    {
        let ghost before = d@;
        if d.len() == 0 || d[d.len() - 1] != v[i] {
            d.push(v[i]);
        }
        assert forall|x: u32| d@.contains(x) <==> v@.take(i + 1).contains(x) by {
            let t1 = v@.take(i + 1);
            let t0 = v@.take(i as int);
            assert(t1 =~= t0.push(v@[i as int]));
            if d@.contains(x) {
                let k = choose|k: int| 0 <= k < d@.len() && d@[k] == x;
                if k < before.len() {
                    assert(before[k] == x);
                    assert(before.contains(x));
                    let j = choose|j: int| 0 <= j < t0.len() && t0[j] == x;
                    assert(t1[j] == x);
                } else {
                    assert(t1[i as int] == x);
                }
            }
            if t1.contains(x) {
                let j = choose|j: int| 0 <= j < t1.len() && t1[j] == x;
                if j < i {
                    assert(t0[j] == x);
                    assert(t0.contains(x));
                    assert(before.contains(x));
                    let k = choose|k: int| 0 <= k < before.len() && before[k] == x;
                    assert(d@[k] == x);
                } else {
                    if d@.len() > before.len() {
                        assert(d@[before.len() as int] == x);
                    } else {
                        assert(d@[before.len() - 1] == x);
                    }
                }
            }
        }
        i += 1;
    }
    assert(v@.take(v@.len() as int) =~= v@);
    proof {
        assert forall|x: u32| d@.contains(x) <==> ids@.contains(x) by {
            v@.to_multiset_ensures();
            ids@.to_multiset_ensures();
            assert(v@.contains(x) <==> v@.to_multiset().count(x) > 0);
            assert(ids@.contains(x) <==> ids@.to_multiset().count(x) > 0);
        }
    }
    to_sequence_set(d.as_slice())
}

} // verus!
