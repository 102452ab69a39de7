//! IMAP sequence sets (RFC 9051 §9, `sequence-set`): `1:3,5,*,2:*`.
//!
//! A set is a comma-separated list of numbers and `lo:hi` ranges, where `*` denotes the largest
//! value in use (the last sequence number, or the highest UID). Ranges are inclusive and
//! order-independent (`5:3` == `3:5`, RFC 9051 §9).
use vstd::prelude::*;
use crate::bytes::{find_byte, parse_u32, slice_of, split_on, trim};

verus! {

/// One endpoint of a range: a fixed number or `*` (the maximum in use).
#[derive(Debug, Clone, Copy, PartialEq, Eq)]
pub enum Point {
    Num(u32),
    Star,
}

impl Point {
    pub open spec fn value(self, max: u32) -> u32 {
        match self {
            Point::Num(n) => n,
            Point::Star => max,
        }
    }

    pub fn resolve(self, max: u32) -> (r: u32)
        ensures
            r == self.value(max),
    {
        match self {
            Point::Num(n) => n,
            Point::Star => max,
        }
    }
}

/// An inclusive range between two endpoints, in either order.
#[derive(Debug, Clone, Copy, PartialEq, Eq)]
pub struct Range {
    pub lo: Point,
    pub hi: Point,
}

impl Range {
    /// The normalized `(low, high)` bounds with `*` resolved to `max`.
    pub open spec fn bounds(self, max: u32) -> (u32, u32) {
        let a = self.lo.value(max);
        let b = self.hi.value(max);
        if a <= b { (a, b) } else { (b, a) }
    }

    pub open spec fn holds(self, val: u32, max: u32) -> bool {
        self.bounds(max).0 <= val <= self.bounds(max).1
    }
}

/// The most comma-separated items a set may have; more is refused as hostile.
pub const MAX_RANGES: usize = 10000;

/// A parsed IMAP sequence set.
#[derive(Debug, Clone, PartialEq, Eq)]
pub struct SequenceSet {
    ranges: Vec<Range>,
    /// The SEARCHRES saved-result reference `$` (RFC 5182). When set, the concrete numbers come
    /// from the session's last-saved SEARCH/SORT result, not from `ranges`.
    saved: bool,
}

/// A sequence-set endpoint: `*`, or a positive 32-bit number (surrounding white space allowed).
pub open spec fn point_spec(s: Seq<u8>) -> Option<Point> {
    let t = crate::bytes::trim_spec(s);
    if t == seq![42u8] {
        Some(Point::Star)
    } else {
        match crate::bytes::parse_dec_spec(t, u32::MAX as nat) {
            Some(n) => if n > 0 { Some(Point::Num(n as u32)) } else { None },
            None => None,
        }
    }
}

/// One comma-separated item: `a:b` (split at the first colon) or a single endpoint.
pub open spec fn item_spec(s: Seq<u8>) -> Option<Range> {
    if exists|i: int| crate::bytes::first_at(s, 58, i) {
        let i = choose|i: int| crate::bytes::first_at(s, 58, i);
        match (point_spec(s.take(i)), point_spec(s.skip(i + 1))) {
            (Some(lo), Some(hi)) => Some(Range { lo, hi }),
            _ => None,
        }
    } else {
        match point_spec(s) {
            Some(p) => Some(Range { lo: p, hi: p }),
            None => None,
        }
    }
}

/// All items, or `None` if any is malformed.
pub open spec fn items_spec(items: Seq<Seq<u8>>) -> Option<Seq<Range>>
    decreases items.len(),
{
    if items.len() == 0 {
        Some(seq![])
    } else {
        match (items_spec(items.drop_last()), item_spec(items.last())) {
            (Some(rs), Some(r)) => Some(rs.push(r)),
            _ => None,
        }
    }
}

/// The meaning of a `sequence-set` text: `(ranges, saved)`, or `None` when malformed.
pub open spec fn parse_spec(s: Seq<u8>) -> Option<(Seq<Range>, bool)> {
    if s.len() == 0 {
        None
    } else if s == seq![36u8] {
        Some((seq![], true))
    } else if crate::bytes::split_spec(s, 44).len() > MAX_RANGES {
        None
    } else {
        match items_spec(crate::bytes::split_spec(s, 44)) {
            Some(rs) => Some((rs, false)),
            None => None,
        }
    }
}

pub fn parse_point(s: &[u8]) -> (r: Option<Point>)
    ensures
        r == point_spec(s@),
{
    let t = trim(s);
    if t.len() == 1 && t[0] == 42 {
        assert(t@ =~= seq![42u8]);
        return Some(Point::Star);
    }
    assert(t@ != seq![42u8]);
    match parse_u32(t) {
        Some(n) => if n > 0 {
            Some(Point::Num(n))
        } else {
            None
        },
        None => None,
    }
}

fn parse_item(s: &[u8]) -> (r: Option<Range>)
    ensures
        r == item_spec(s@),
{
    let n = s.len();
    match find_byte(s, 58) {
        Some(i) => {
            proof {
                let j = choose|j: int| crate::bytes::first_at(s@, 58, j);
                if j < i {
                } else if j > i {
                }
                assert(j == i);
                assert(s@.take(i as int) =~= s@.subrange(0, i as int));
                assert(s@.skip(i + 1) =~= s@.subrange(i + 1, s@.len() as int));
            }
            let lo = parse_point(slice_of(s, 0, i));
            let hi = parse_point(slice_of(s, i + 1, n));
            match (lo, hi) {
                (Some(lo), Some(hi)) => Some(Range { lo, hi }),
                _ => None,
            }
        },
        None => {
            match parse_point(s) {
                Some(p) => Some(Range { lo: p, hi: p }),
                None => None,
            }
        },
    }
}

impl View for SequenceSet {
    type V = (Seq<Range>, bool);

    closed spec fn view(&self) -> (Seq<Range>, bool) {
        (self.ranges@, self.saved)
    }
}

impl SequenceSet {
    /// Does `val` fall in the set, given `max` (the largest value in use, for `*`)?
    pub open spec fn has(self, val: u32, max: u32) -> bool {
        exists|k: int| 0 <= k < self@.0.len() && (#[trigger] self@.0[k]).holds(val, max)
    }

    /// Parse a `sequence-set` given as bytes. `None` on any malformed item (fail closed).
    pub fn parse_bytes(s: &[u8]) -> (r: Option<SequenceSet>)
        ensures
            r matches Some(set) ==> parse_spec(s@) == Some(set@),
            r is None ==> parse_spec(s@) is None,
    {
        if s.len() == 0 {
            return None;
        }
        if s.len() == 1 && s[0] == 36 {
            assert(s@ =~= seq![36u8]);
            return Some(SequenceSet { ranges: Vec::new(), saved: true });
        }
        assert(s@ != seq![36u8]);
        let items = split_on(s, 44);
        if items.len() > MAX_RANGES {
            return None;
        }
        let mut ranges: Vec<Range> = Vec::new();
        let mut i: usize = 0;
        while i < items.len()
            invariant
                i <= items@.len(),
                s@.len() > 0,
                s@ != seq![36u8],
                items@.len() <= MAX_RANGES,
                crate::bytes::views(items@) == crate::bytes::split_spec(s@, 44),
                items_spec(crate::bytes::views(items@).take(i as int)) == Some(ranges@),
            decreases items@.len() - i,
        {
            assert(crate::bytes::views(items@).take(i + 1).drop_last() =~= crate::bytes::views(
                items@,
            ).take(i as int));
            assert(crate::bytes::views(items@)[i as int] == items@[i as int]@);
            match parse_item(items[i].as_slice()) {
                Some(r) => {
                    ranges.push(r);
                },
                None => {
                    proof {
                        lemma_items_none(crate::bytes::views(items@), i as int);
                    }
                    return None;
                },
            }
            i += 1;
        }
        assert(crate::bytes::views(items@).take(items@.len() as int) =~= crate::bytes::views(
            items@,
        ));
        Some(SequenceSet { ranges, saved: false })
    }

    /// Parse a `sequence-set`. Returns `None` on any malformed token (fail closed). The bare `$`
    /// token (RFC 5182 SEARCHRES) parses to the saved-result reference.
    pub fn parse(s: &str) -> (r: Option<SequenceSet>)
        ensures
            r matches Some(set) ==> parse_spec(crate::bytes::lit(s)) == Some(set@),
            r is None ==> parse_spec(crate::bytes::lit(s)) is None,
    {
        Self::parse_bytes(s.as_bytes())
    }

    /// A copy of the set.
    pub fn copy(&self) -> (r: SequenceSet)
        ensures
            r@ == self@,
    {
        let mut ranges: Vec<Range> = Vec::new();
        let mut i: usize = 0;
        while i < self.ranges.len()
            invariant
                i <= self.ranges@.len(),
                ranges@ == self.ranges@.take(i as int),
            decreases self.ranges@.len() - i,
        {
            ranges.push(self.ranges[i]);
            assert(self.ranges@.take(i + 1) =~= self.ranges@.take(i as int).push(self.ranges@[i as int]));
            i += 1;
        }
        assert(self.ranges@.take(i as int) =~= self.ranges@);
        SequenceSet { ranges, saved: self.saved }
    }

    /// Whether this set is the SEARCHRES saved-result reference `$` (RFC 5182).
    pub fn is_saved(&self) -> (r: bool)
        ensures
            r == self@.1,
    {
        self.saved
    }

    /// A concrete set holding exactly the given numbers (used to materialize a `$` reference).
    pub fn from_uids(nums: &[u32]) -> (r: SequenceSet)
        ensures
            !r@.1,
            r@.0.len() == nums@.len(),
            forall|k: int|
                0 <= k < nums@.len() ==> #[trigger] r@.0[k] == (Range {
                    lo: Point::Num(nums@[k]),
                    hi: Point::Num(nums@[k]),
                }),
            forall|val: u32, max: u32| #[trigger] r.has(val, max) <==> nums@.contains(val),
    {
        let mut ranges: Vec<Range> = Vec::new();
        let mut i: usize = 0;
        while i < nums.len()
            invariant
                i <= nums@.len(),
                ranges@.len() == i,
                forall|k: int|
                    0 <= k < i ==> #[trigger] ranges@[k] == (Range {
                        lo: Point::Num(nums@[k]),
                        hi: Point::Num(nums@[k]),
                    }),
            decreases nums@.len() - i,
        {
            ranges.push(Range { lo: Point::Num(nums[i]), hi: Point::Num(nums[i]) });
            i += 1;
        }
        let r = SequenceSet { ranges, saved: false };
        assert forall|val: u32, max: u32| #[trigger] r.has(val, max) <==> nums@.contains(val) by {
            if nums@.contains(val) {
                let k = choose|k: int| 0 <= k < nums@.len() && nums@[k] == val;
                assert(r@.0[k].holds(val, max));
            }
            if r.has(val, max) {
                let k = choose|k: int| 0 <= k < r@.0.len() && (#[trigger] r@.0[k]).holds(val, max);
                assert(nums@[k] == val);
            }
        }
        r
    }

    /// Does `val` fall in the set, given `max` (the largest value in use, for `*`)?
    pub fn contains(&self, val: u32, max: u32) -> (r: bool)
        ensures
            r == self.has(val, max),
    {
        let mut k: usize = 0;
        while k < self.ranges.len()
            invariant
                k <= self.ranges@.len(),
                forall|j: int| 0 <= j < k ==> !(#[trigger] self.ranges@[j]).holds(val, max),
            decreases self.ranges@.len() - k,
        {
            let r = self.ranges[k];
            let a = r.lo.resolve(max);
            let b = r.hi.resolve(max);
            let (lo, hi) = if a <= b { (a, b) } else { (b, a) };
            if val >= lo && val <= hi {
                assert(self@.0[k as int].holds(val, max));
                return true;
            }
            k += 1;
        }
        false
    }

    /// Resolve to concrete sequence numbers in `1..=count`: exactly the members, ascending and
    /// without duplicates.
    pub fn resolve_seqs(&self, count: u32) -> (r: Vec<u32>)
        ensures
            forall|n: u32| r@.contains(n) <==> 1 <= n <= count && self.has(n, count),
            forall|a: int, b: int| 0 <= a < b < r@.len() ==> r@[a] < r@[b],
    {
        let mut out: Vec<u32> = Vec::new();
        if count == 0 {
            return out;
        }
        let mut n: u32 = 1;
        loop
            invariant
                1 <= n <= count,
                forall|m: u32| out@.contains(m) <==> 1 <= m < n && self.has(m, count),
                forall|a: int, b: int| 0 <= a < b < out@.len() ==> out@[a] < out@[b],
                forall|a: int| 0 <= a < out@.len() ==> out@[a] < n,
            decreases count - n,
        {
            if self.contains(n, count) {
                let ghost before = out@;
                out.push(n);
                assert forall|m: u32| out@.contains(m) <==> 1 <= m < n + 1 && self.has(m, count) by {
                    assert(out@ == before.push(n));
                    if m == n {
                        assert(out@[before.len() as int] == n);
                    } else {
                        if out@.contains(m) {
                            let k = choose|k: int| 0 <= k < out@.len() && out@[k] == m;
                            if k < before.len() {
                                assert(before[k] == m);
                                assert(before.contains(m));
                            }
                        }
                        if before.contains(m) {
                            let k = choose|k: int| 0 <= k < before.len() && before[k] == m;
                            assert(out@[k] == m);
                        }
                    }
                }
            } else {
                assert forall|m: u32| out@.contains(m) <==> 1 <= m < n + 1 && self.has(m, count) by {
                    if out@.contains(m) {
                        let k = choose|k: int| 0 <= k < out@.len() && out@[k] == m;
                    }
                }
            }
            if n == count {
                return out;
            }
            n += 1;
        }
    }

    /// The normalized `(lo, hi)` ranges (`lo <= hi`) with `*` resolved to `max`.
    pub fn ranges_resolved(&self, max: u32) -> (r: Vec<(u32, u32)>)
        ensures
            r@.len() == self@.0.len(),
            forall|k: int| 0 <= k < r@.len() ==> #[trigger] r@[k] == self@.0[k].bounds(max),
    {
        let mut out: Vec<(u32, u32)> = Vec::new();
        let mut k: usize = 0;
        while k < self.ranges.len()
            invariant
                k <= self.ranges@.len(),
                out@.len() == k,
                forall|j: int| 0 <= j < k ==> #[trigger] out@[j] == self.ranges@[j].bounds(max),
            decreases self.ranges@.len() - k,
        {
            let r = self.ranges[k];
            let a = r.lo.resolve(max);
            let b = r.hi.resolve(max);
            out.push(if a <= b { (a, b) } else { (b, a) });
            k += 1;
        }
        out
    }
}

proof fn lemma_items_none(items: Seq<Seq<u8>>, i: int)
    requires
        0 <= i < items.len(),
        item_spec(items[i]) is None,
    ensures
        items_spec(items) is None,
    decreases items.len(),
{
    if i < items.len() - 1 {
        lemma_items_none(items.drop_last(), i);
    }
}

/// A text with no separator splits into itself alone.
proof fn lemma_split_whole(s: Seq<u8>, sep: u8)
    requires
        forall|i: int| 0 <= i < s.len() ==> s[i] != sep,
    ensures
        crate::bytes::split_spec(s, sep) == seq![s],
    decreases s.len(),
{
    if s.len() == 0 {
        assert(s =~= Seq::<u8>::empty());
    } else {
        lemma_split_whole(s.drop_last(), sep);
        assert(s.drop_last().push(s.last()) =~= s);
        assert(seq![s.drop_last()].update(0, s.drop_last().push(s.last())) =~= seq![s]);
    }
}

/// Ranges are order-independent: the set `a:b` parses to the single range from `a` to `b`, the
/// set `b:a` to the range from `b` to `a`, both hold the same values, and those are exactly the
/// values between the two endpoints, inclusive, with `*` standing for `max`.
pub proof fn law_range_order_independent(a: Seq<u8>, b: Seq<u8>, val: u32, max: u32)
    requires
        point_spec(a) is Some,
        point_spec(b) is Some,
        forall|i: int| 0 <= i < a.len() ==> a[i] != 58 && a[i] != 44,
        forall|i: int| 0 <= i < b.len() ==> b[i] != 58 && b[i] != 44,
    ensures
        ({
            let pa = point_spec(a).unwrap();
            let pb = point_spec(b).unwrap();
            let ab = Range { lo: pa, hi: pb };
            let ba = Range { lo: pb, hi: pa };
            &&& parse_spec(a + seq![58u8] + b) == Some((seq![ab], false))
            &&& parse_spec(b + seq![58u8] + a) == Some((seq![ba], false))
            &&& ab.holds(val, max) == ba.holds(val, max)
            &&& ab.holds(val, max) <==> ((pa.value(max) <= val <= pb.value(max)) || (pb.value(
                max,
            ) <= val <= pa.value(max)))
        }),
{
    lemma_parse_pair(a, b);
    lemma_parse_pair(b, a);
}

/// `a:b`, with neither part holding a colon or a comma, parses to the one range `a` to `b`.
proof fn lemma_parse_pair(a: Seq<u8>, b: Seq<u8>)
    requires
        point_spec(a) is Some,
        point_spec(b) is Some,
        forall|i: int| 0 <= i < a.len() ==> a[i] != 58 && a[i] != 44,
        forall|i: int| 0 <= i < b.len() ==> b[i] != 58 && b[i] != 44,
    ensures
        parse_spec(a + seq![58u8] + b) == Some(
            (seq![Range { lo: point_spec(a).unwrap(), hi: point_spec(b).unwrap() }], false),
        ),
{
    let s = a + seq![58u8] + b;
    let n = a.len() as int;
    assert(s[n] == 58u8);
    assert(crate::bytes::first_at(s, 58, n));
    assert forall|i: int| crate::bytes::first_at(s, 58, i) implies i == n by {
        if i < n {
            assert(s[i] == a[i]);
        } else if i > n {
            assert(s[n] == 58u8);
        }
    }
    let k = choose|i: int| crate::bytes::first_at(s, 58, i);
    assert(k == n);
    assert(s.take(n) =~= a);
    assert(s.skip(n + 1) =~= b);
    let r = Range { lo: point_spec(a).unwrap(), hi: point_spec(b).unwrap() };
    assert(item_spec(s) == Some(r));
    assert forall|i: int| 0 <= i < s.len() implies s[i] != 44 by {
        if i < n {
            assert(s[i] == a[i]);
        } else if i > n {
            assert(s[i] == b[i - n - 1]);
        }
    }
    lemma_split_whole(s, 44);
    assert(s.len() > 0);
    assert(s != seq![36u8]) by {
        if s == seq![36u8] {
            assert(s[n] == 58u8);
        }
    }
    assert(seq![s].drop_last() =~= Seq::<Seq<u8>>::empty());
    assert(seq![s].last() == s);
    assert(items_spec(Seq::<Seq<u8>>::empty()) == Some(Seq::<Range>::empty()));
    assert(items_spec(seq![s]) == Some(seq![r]));
}


/// The decimal text of a number is digits only, reading back as the number.
proof fn lemma_dec_digits(n: nat)
    ensures
        crate::smtp::dec_spec(n).len() > 0,
        crate::bytes::all_digits(crate::smtp::dec_spec(n)),
        crate::bytes::digits_val(crate::smtp::dec_spec(n)) == n,
    decreases n,
{
    let d = crate::smtp::dec_spec(n);
    if n >= 10 {
        lemma_dec_digits(n / 10);
        let p = crate::smtp::dec_spec(n / 10);
        assert(d == p + seq![(48 + n % 10) as u8]);
        assert(d.drop_last() =~= p);
        assert(d.last() == (48 + n % 10) as u8);
        assert((n / 10) * 10 + n % 10 == n) by (nonlinear_arith);
        assert(crate::bytes::digits_val(d) == crate::bytes::digits_val(p) * 10 + (d.last() - 48) as nat);
        assert forall|i: int| 0 <= i < d.len() implies crate::bytes::is_digit(#[trigger] d[i]) by {
            if i < p.len() {
                assert(d[i] == p[i]);
            }
        }
    } else {
        assert(d.drop_last() =~= Seq::<u8>::empty());
        assert(crate::bytes::digits_val(d) == crate::bytes::digits_val(d.drop_last()) * 10 + (d.last() - 48) as nat);
    }
}

/// The decimal text of a positive `u32` is that endpoint.
proof fn lemma_dec_point(n: u32)
    requires
        n >= 1,
    ensures
        point_spec(crate::smtp::dec_spec(n as nat)) == Some(Point::Num(n)),
        forall|i: int| 0 <= i < crate::smtp::dec_spec(n as nat).len() ==> #[trigger] crate::smtp::dec_spec(n as nat)[i]
            != 58 && crate::smtp::dec_spec(n as nat)[i] != 44,
{
    let d = crate::smtp::dec_spec(n as nat);
    lemma_dec_digits(n as nat);
    assert(crate::bytes::is_digit(d[0]));
    assert(crate::bytes::is_digit(d[d.len() - 1]));
    assert(crate::bytes::lead_ws(d) == 0);
    assert(crate::bytes::trail_ws(d) == 0);
    assert(crate::bytes::trim_start_spec(d) =~= d);
    assert(crate::bytes::trim_spec(d) =~= d);
    assert(crate::bytes::numeral_digits(d) == d);
    assert forall|i: int| 0 <= i < d.len() implies #[trigger] d[i] != 58 && d[i] != 44 by {
        assert(crate::bytes::is_digit(d[i]));
    }
}

/// Ranges of numbers are order-independent and inclusive: for UIDs or sequence numbers `a` and
/// `b`, the set written `a:b` and the set written `b:a` each parse to one range, and both hold
/// exactly the values from the smaller endpoint to the larger.
pub proof fn law_numeric_range_order_independent(a: u32, b: u32, val: u32, max: u32)
    requires
        a >= 1,
        b >= 1,
    ensures
        ({
            let ta = crate::smtp::dec_spec(a as nat);
            let tb = crate::smtp::dec_spec(b as nat);
            let ab = Range { lo: Point::Num(a), hi: Point::Num(b) };
            let ba = Range { lo: Point::Num(b), hi: Point::Num(a) };
            &&& parse_spec(ta + seq![58u8] + tb) == Some((seq![ab], false))
            &&& parse_spec(tb + seq![58u8] + ta) == Some((seq![ba], false))
            &&& ab.holds(val, max) == ba.holds(val, max)
            &&& ab.holds(val, max) <==> ((a <= val <= b) || (b <= val <= a))
        }),
{
    lemma_dec_point(a);
    lemma_dec_point(b);
    law_range_order_independent(crate::smtp::dec_spec(a as nat), crate::smtp::dec_spec(b as nat), val, max);
}

} // verus!
