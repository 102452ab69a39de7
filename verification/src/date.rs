//! Calendar arithmetic for message dates: days since 1970-01-01 to a proleptic Gregorian
//! (year, month, day) and back (Howard Hinnant's algorithms, with 400-year eras of 146097
//! days), and the two UTC date-time texts mail uses: RFC 5322 `Date:` and IMAP INTERNALDATE.
use vstd::prelude::*;
use crate::bytes::push_lit;
use crate::json::push_dec_u64;
use crate::text::lossy_string;

verus! {

/// The civil date of a day count, with years beginning in March: the day count shifted to
/// 0000-03-01, its 400-year era, the day of the era, the year of the era, the day of the
/// March-based year and the March-based month.
pub open spec fn civil_spec(z: int) -> (int, int, int) {
    let zs = z + 719468;
    let era = zs / 146097;
    let doe = zs - era * 146097;
    let yoe = (doe - doe / 1460 + doe / 36524 - doe / 146096) / 365;
    let y = yoe + era * 400;
    let doy = doe - (365 * yoe + yoe / 4 - yoe / 100);
    let mp = (5 * doy + 2) / 153;
    let d = doy - (153 * mp + 2) / 5 + 1;
    let m = if mp < 10 { mp + 3 } else { mp - 9 };
    (if m <= 2 { y + 1 } else { y }, m, d)
}

/// The day count of a civil date: the inverse of [`civil_spec`].
pub open spec fn days_from_civil_spec(y: int, m: int, d: int) -> int {
    let ys = if m <= 2 { y - 1 } else { y };
    let era = ys / 400;
    let yoe = ys - era * 400;
    let doy = (153 * (if m > 2 { m - 3 } else { m + 9 }) + 2) / 5 + d - 1;
    let doe = yoe * 365 + yoe / 4 - yoe / 100 + doy;
    era * 146097 + doe - 719468
}

/// The weekday of a day count, Monday 0 to Sunday 6 (1970-01-01 was a Thursday).
pub open spec fn weekday_spec(z: int) -> int {
    (z + 3) % 7
}

/// The smallest day count [`civil_from_days`] takes: below it the era arithmetic leaves `i64`.
pub const MIN_CIVIL_DAYS: i64 = -9223372036853910244;

/// The largest day count [`civil_from_days`] takes.
pub const MAX_CIVIL_DAYS: i64 = 9223372036854056339;

/// Days since 1970-01-01 to (year, month, day).
pub fn civil_from_days(z: i64) -> (r: (i64, i64, i64))
    requires
        MIN_CIVIL_DAYS <= z <= MAX_CIVIL_DAYS,
    ensures
        (r.0 as int, r.1 as int, r.2 as int) == civil_spec(z as int),
        1 <= r.1 <= 12,
        1 <= r.2 <= 31,
{
    let zs = z + 719468;
    let era: i64 = if zs >= 0 {
        zs / 146097
    } else {
        -((-(zs + 1)) / 146097) - 1
    };
    assert(era == zs / 146097) by {
        if zs < 0 {
            let k = -(zs + 1);
            assert(k >= 0);
            assert(zs == -k - 1);
            assert((-k - 1) / 146097 == -(k / 146097) - 1) by (nonlinear_arith)
                requires
                    k >= 0,
            ;
        }
    }
    let doe = zs - era * 146097;
    assert(0 <= doe < 146097) by (nonlinear_arith)
        requires
            era == zs / 146097,
            doe == zs - era * 146097,
    ;
    let yoe = (doe - doe / 1460 + doe / 36524 - doe / 146096) / 365;
    assert(0 <= yoe <= 399);
    let y = yoe + era * 400;
    let doy = doe - (365 * yoe + yoe / 4 - yoe / 100);
    assert(0 <= doy <= 365);
    let mp = (5 * doy + 2) / 153;
    assert(0 <= mp <= 11);
    let d = doy - (153 * mp + 2) / 5 + 1;
    assert(1 <= d <= 31);
    let m = if mp < 10 {
        mp + 3
    } else {
        mp - 9
    };
    (if m <= 2 {
        y + 1
    } else {
        y
    }, m, d)
}

/// Days since 1970-01-01 of a civil date.
pub fn days_from_civil(y: i64, m: i64, d: i64) -> (r: i64)
    requires
        -1_000_000_000_000 <= y <= 1_000_000_000_000,
        -1_000_000_000_000 <= m <= 1_000_000_000_000,
        -1_000_000_000_000 <= d <= 1_000_000_000_000,
    ensures
        r as int == days_from_civil_spec(y as int, m as int, d as int),
{
    let ys = if m <= 2 {
        y - 1
    } else {
        y
    };
    let era: i64 = if ys >= 0 {
        ys / 400
    } else {
        -((-(ys + 1)) / 400) - 1
    };
    assert(era == ys / 400) by {
        if ys < 0 {
            let k = -(ys + 1);
            assert((-k - 1) / 400 == -(k / 400) - 1) by (nonlinear_arith)
                requires
                    k >= 0,
            ;
        }
    }
    let yoe = ys - era * 400;
    assert(0 <= yoe < 400) by (nonlinear_arith)
        requires
            era == ys / 400,
            yoe == ys - era * 400,
    ;
    let mm = if m > 2 {
        m - 3
    } else {
        m + 9
    };
    let q: i64 = if mm >= 0 {
        (153 * mm + 2) / 5
    } else {
        -((-(153 * mm + 2) + 4) / 5)
    };
    assert(q == (153 * mm + 2) / 5) by {
        if mm < 0 {
            let k = -(153 * mm + 2);
            assert(k > 0);
            assert((-k) / 5 == -((k + 4) / 5)) by (nonlinear_arith)
                requires
                    k > 0,
            ;
        }
    }
    let doy = q + d - 1;
    let doe = yoe * 365 + yoe / 4 - yoe / 100 + doy;
    era * 146097 + doe - 719468
}

/// The weekday of a day count, Monday 0 to Sunday 6.
pub fn weekday_from_days(z: i64) -> (r: usize)
    ensures
        r as int == weekday_spec(z as int),
        r < 7,
{
    let m: i64 = if z >= 0 {
        z % 7
    } else {
        6 - (-(z + 1)) % 7
    };
    assert(m == (z as int) % 7) by {
        if z < 0 {
            let k = -(z + 1);
            assert((-k - 1) % 7 == 6 - k % 7) by (nonlinear_arith)
                requires
                    k >= 0,
            ;
        }
    }
    ((m + 3) % 7) as usize
}

/// The civil date of a Unix-ms timestamp, in UTC.
pub open spec fn ymd_spec(ms: u64) -> (int, int, int) {
    civil_spec((ms / 1000 / 86400) as int)
}

/// (year, month, day) in UTC of a Unix-ms timestamp (IMAP SEARCH date keys use it).
pub fn ymd_from_ms(ms: u64) -> (r: (i64, i64, i64))
    ensures
        (r.0 as int, r.1 as int, r.2 as int) == ymd_spec(ms),
        1 <= r.1 <= 12,
        1 <= r.2 <= 31,
{
    let days = (ms / 1000 / 86400) as i64;
    civil_from_days(days)
}

/// A number in decimal, left-padded with zeros to at least `w` digits.
pub open spec fn padded(n: nat, w: nat) -> Seq<u8> {
    let digits = crate::smtp::dec_spec(n);
    Seq::new(if digits.len() < w { (w - digits.len()) as nat } else { 0 }, |_i: int| 48u8) + digits
}

fn push_padded(out: &mut Vec<u8>, n: u64, w: usize)
    ensures
        final(out)@ == old(out)@ + padded(n as nat, w as nat),
{
    let mut digits: Vec<u8> = Vec::new();
    push_dec_u64(&mut digits, n);
    assert(digits@ =~= crate::smtp::dec_spec(n as nat));
    let pad: usize = if digits.len() < w {
        w - digits.len()
    } else {
        0
    };
    let ghost before = out@;
    let mut k: usize = 0;
    while k < pad
        invariant
            k <= pad,
            out@ == before + Seq::new(k as nat, |_i: int| 48u8),
        decreases pad - k,
    {
        out.push(48);
        assert(out@ =~= before + Seq::new((k + 1) as nat, |_i: int| 48u8));
        k += 1;
    }
    crate::bytes::push_all(out, digits.as_slice());
    assert(out@ =~= before + padded(n as nat, w as nat));
}

/// The English month abbreviation of month `m` (1 to 12).
pub open spec fn month_abbr(m: int) -> Seq<u8> {
    crate::bytes::lit(
        if m == 1 {
            "Jan"
        } else if m == 2 {
            "Feb"
        } else if m == 3 {
            "Mar"
        } else if m == 4 {
            "Apr"
        } else if m == 5 {
            "May"
        } else if m == 6 {
            "Jun"
        } else if m == 7 {
            "Jul"
        } else if m == 8 {
            "Aug"
        } else if m == 9 {
            "Sep"
        } else if m == 10 {
            "Oct"
        } else if m == 11 {
            "Nov"
        } else {
            "Dec"
        },
    )
}

fn month_name(m: i64) -> (r: &'static str)
    ensures
        crate::bytes::lit(r) == month_abbr(m as int),
{
    if m == 1 {
        "Jan"
    } else if m == 2 {
        "Feb"
    } else if m == 3 {
        "Mar"
    } else if m == 4 {
        "Apr"
    } else if m == 5 {
        "May"
    } else if m == 6 {
        "Jun"
    } else if m == 7 {
        "Jul"
    } else if m == 8 {
        "Aug"
    } else if m == 9 {
        "Sep"
    } else if m == 10 {
        "Oct"
    } else if m == 11 {
        "Nov"
    } else {
        "Dec"
    }
}

/// The English weekday abbreviation of weekday `w` (Monday 0).
pub open spec fn weekday_abbr(w: int) -> Seq<u8> {
    crate::bytes::lit(
        if w == 0 {
            "Mon"
        } else if w == 1 {
            "Tue"
        } else if w == 2 {
            "Wed"
        } else if w == 3 {
            "Thu"
        } else if w == 4 {
            "Fri"
        } else if w == 5 {
            "Sat"
        } else {
            "Sun"
        },
    )
}

fn weekday_name(w: usize) -> (r: &'static str)
    ensures
        crate::bytes::lit(r) == weekday_abbr(w as int),
{
    if w == 0 {
        "Mon"
    } else if w == 1 {
        "Tue"
    } else if w == 2 {
        "Wed"
    } else if w == 3 {
        "Thu"
    } else if w == 4 {
        "Fri"
    } else if w == 5 {
        "Sat"
    } else {
        "Sun"
    }
}

/// `HH:MM:SS` of the second of the day `rem` (0 to 86399).
pub open spec fn clock_text(rem: nat) -> Seq<u8> {
    padded(rem / 3600, 2) + seq![58u8] + padded((rem % 3600) / 60, 2) + seq![58u8] + padded(
        rem % 60,
        2,
    )
}

fn push_clock(out: &mut Vec<u8>, rem: u64)
    requires
        rem < 86400,
    ensures
        final(out)@ == old(out)@ + clock_text(rem as nat),
{
    let ghost before = out@;
    push_padded(out, rem / 3600, 2);
    out.push(58);
    push_padded(out, (rem % 3600) / 60, 2);
    out.push(58);
    push_padded(out, rem % 60, 2);
    assert(out@ =~= before + clock_text(rem as nat));
}

/// The IMAP INTERNALDATE of a Unix-ms timestamp: `DD-Mon-YYYY HH:MM:SS +0000`.
pub open spec fn internal_date_text(ms: u64) -> Seq<u8> {
    let (y, m, d) = ymd_spec(ms);
    padded(d as nat, 2) + seq![45u8] + month_abbr(m) + seq![45u8] + padded(y as nat, 4)
        + seq![32u8] + clock_text(((ms / 1000) % 86400) as nat) + crate::bytes::lit(" +0000")
}

/// Format a Unix-ms timestamp as an IMAP INTERNALDATE (RFC 9051 `date-time`), e.g.
/// `15-Jul-2026 12:34:56 +0000`.
pub fn format_internal_date(ms: u64) -> (r: String)
    ensures
        r@ == crate::text::utf8_lossy(internal_date_text(ms)),
{
    let out = internal_date_bytes(ms);
    lossy_string(out.as_slice())
}

/// The INTERNALDATE text of a timestamp, as bytes.
pub(crate) fn internal_date_bytes(ms: u64) -> (r: Vec<u8>)
    ensures
        r@ == internal_date_text(ms),
{
    let (y, m, d) = ymd_from_ms(ms);
    assert(y >= 1970) by {
        assert(civil_spec((ms / 1000 / 86400) as int).0 >= 1970) by (nonlinear_arith)
            requires
                ms / 1000 / 86400 >= 0,
        ;
    }
    let mut out: Vec<u8> = Vec::new();
    push_padded(&mut out, d as u64, 2);
    out.push(45);
    crate::bytes::push_all(&mut out, month_name(m).as_bytes());
    out.push(45);
    push_padded(&mut out, y as u64, 4);
    out.push(32);
    push_clock(&mut out, (ms / 1000) % 86400);
    push_lit(&mut out, " +0000");
    assert(out@ =~= internal_date_text(ms));
    out
}

/// The RFC 5322 `Date:` text of a Unix-ms timestamp: `Wkd, DD Mon YYYY HH:MM:SS +0000`.
pub open spec fn rfc5322_date_text(ms: u64) -> Seq<u8> {
    let (y, m, d) = ymd_spec(ms);
    weekday_abbr(weekday_spec((ms / 1000 / 86400) as int)) + crate::bytes::lit(", ") + padded(
        d as nat,
        2,
    ) + seq![32u8] + month_abbr(m) + seq![32u8] + padded(y as nat, 4) + seq![32u8] + clock_text(
        ((ms / 1000) % 86400) as nat,
    ) + crate::bytes::lit(" +0000")
}

/// Format a Unix-ms timestamp as an RFC 5322 date-time in UTC, e.g.
/// `Wed, 15 Jul 2026 12:34:56 +0000`.
pub fn format_rfc5322_date(ms: u64) -> (r: String)
    ensures
        r@ == crate::text::utf8_lossy(rfc5322_date_text(ms)),
{
    let out = rfc5322_date_bytes(ms);
    lossy_string(out.as_slice())
}

/// [`format_rfc5322_date`] as bytes.
pub fn rfc5322_date_bytes(ms: u64) -> (r: Vec<u8>)
    ensures
        r@ == rfc5322_date_text(ms),
{
    let days = (ms / 1000 / 86400) as i64;
    let (y, m, d) = ymd_from_ms(ms);
    assert(y >= 1970) by {
        assert(civil_spec((ms / 1000 / 86400) as int).0 >= 1970) by (nonlinear_arith)
            requires
                ms / 1000 / 86400 >= 0,
        ;
    }
    let wd = weekday_from_days(days);
    let mut out: Vec<u8> = Vec::new();
    crate::bytes::push_all(&mut out, weekday_name(wd).as_bytes());
    push_lit(&mut out, ", ");
    push_padded(&mut out, d as u64, 2);
    out.push(32);
    crate::bytes::push_all(&mut out, month_name(m).as_bytes());
    out.push(32);
    push_padded(&mut out, y as u64, 4);
    out.push(32);
    push_clock(&mut out, (ms / 1000) % 86400);
    push_lit(&mut out, " +0000");
    assert(out@ =~= rfc5322_date_text(ms));
    out
}

/// Days and civil dates correspond one to one over the range the conversion takes: reading a
/// day count as a date and the date back as a day count gives the same day.
pub proof fn civil_round_trip(z: int)
    ensures
        days_from_civil_spec(civil_spec(z).0, civil_spec(z).1, civil_spec(z).2) == z,
{
    let zs = z + 719468;
    let era = zs / 146097;
    let doe = zs - era * 146097;
    assert(0 <= doe < 146097) by (nonlinear_arith)
        requires
            era == zs / 146097,
            doe == zs - era * 146097,
    ;
    let yoe = (doe - doe / 1460 + doe / 36524 - doe / 146096) / 365;
    let y = yoe + era * 400;
    let doy = doe - (365 * yoe + yoe / 4 - yoe / 100);
    let mp = (5 * doy + 2) / 153;
    let d = doy - (153 * mp + 2) / 5 + 1;
    let m = if mp < 10 { mp + 3 } else { mp - 9 };
    assert(0 <= yoe <= 399);
    assert(0 <= mp <= 11);
    let ys = if m <= 2 { (if m <= 2 { y + 1 } else { y }) - 1 } else { y };
    assert(ys == y);
    assert(ys / 400 == era) by (nonlinear_arith)
        requires
            ys == yoe + era * 400,
            0 <= yoe <= 399,
    ;
    assert((if m > 2 { m - 3 } else { m + 9 }) == mp);
}

} // verus!
