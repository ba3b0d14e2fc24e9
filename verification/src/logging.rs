//! Log lines and their UTC timestamps (`YYYY-MM-DDTHH:MM:SS.mmmZ`).
use crate::text::{decimal, push_chars, push_decimal};
use vstd::arithmetic::div_mod::lemma_fundamental_div_mod_converse;
use vstd::prelude::*;

verus! {

broadcast use vstd::string::group_string_axioms;

// ---------------------------------------------------------------------------
// The proleptic Gregorian calendar
// ---------------------------------------------------------------------------
pub open spec fn is_leap(y: int) -> bool {
    (y % 4 == 0 && y % 100 != 0) || y % 400 == 0
}

pub open spec fn days_in_month(y: int, m: int) -> int {
    if m == 2 {
        if is_leap(y) {
            29
        } else {
            28
        }
    } else if m == 4 || m == 6 || m == 9 || m == 11 {
        30
    } else {
        31
    }
}

/// `(y, m, d)` is a date: a month `1..=12` and a day of that month.
pub open spec fn is_valid_date(y: int, m: int, d: int) -> bool {
    1 <= m <= 12 && 1 <= d <= days_in_month(y, m)
}

/// The number of days from 1970-01-01 to the date `(y, m, d)`. Years are
/// counted from March (so that the leap day ends a year): 400-year eras of
/// 146097 days, years of 365 days plus every fourth but the hundredth, and
/// months of March-based lengths `(153 * mp + 2) / 5`.
pub open spec fn days_from_civil(y: int, m: int, d: int) -> int {
    let yy = if m <= 2 {
        y - 1
    } else {
        y
    };
    let era = yy / 400;
    let yoe = yy - era * 400;
    let mp = if m > 2 {
        m - 3
    } else {
        m + 9
    };
    let doy = (153 * mp + 2) / 5 + d - 1;
    let doe = yoe * 365 + yoe / 4 - yoe / 100 + doy;
    era * 146097 + doe - 719468
}

/// Within an era, the year and the day of the (March-based) year are in range.
proof fn lemma_year_of_era(doe: u32)
    by (bit_vector)
    requires
        doe <= 146096,
    ensures
        (doe - doe / 1460 + doe / 36524 - doe / 146096) / 365 <= 399,
        365 * ((doe - doe / 1460 + doe / 36524 - doe / 146096) / 365) + ((doe - doe / 1460 + doe
            / 36524 - doe / 146096) / 365) / 4 - ((doe - doe / 1460 + doe / 36524 - doe / 146096)
            / 365) / 100 <= doe,
        doe - (365 * ((doe - doe / 1460 + doe / 36524 - doe / 146096) / 365) + ((doe - doe / 1460
            + doe / 36524 - doe / 146096) / 365) / 4 - ((doe - doe / 1460 + doe / 36524 - doe
            / 146096) / 365) / 100) <= 365,
{
}

/// The 366th day of a March-based year only comes before a leap February.
proof fn lemma_leap_day(doe: u32, yoe: u32)
    by (bit_vector)
    requires
        doe <= 146096,
        yoe == ((doe - doe / 1460 + doe / 36524 - doe / 146096) / 365) as u32,
        doe - (365 * yoe + yoe / 4 - yoe / 100) == 365,
    ensures
        (((yoe + 1) as u32) % 4 == 0 && ((yoe + 1) as u32) % 100 != 0) || ((yoe + 1) as u32) % 400
            == 0,
{
}

/// The month and day of a day of a March-based year.
proof fn lemma_month_of_year(doy: u32, mp: u32, start: u32, d: u32)
    by (bit_vector)
    requires
        doy <= 365,
        mp == ((5 * doy + 2) / 153) as u32,
        start == ((153 * mp + 2) / 5) as u32,
        d == ((doy - start) + 1) as u32,
    ensures
        mp <= 11,
        start <= doy,
        1 <= d,
        mp <= 10 ==> d <= 31,
        mp == 1 || mp == 3 || mp == 6 || mp == 8 ==> d <= 30,
        mp == 11 ==> d <= 29,
        mp == 11 && doy < 365 ==> d <= 28,
{
}

proof fn lemma_shift_by_eras(a: int, era: int)
    ensures
        (a + 400 * era) % 4 == a % 4,
        (a + 400 * era) % 100 == a % 100,
        (a + 400 * era) % 400 == a % 400,
{
    vstd::arithmetic::div_mod::lemma_mod_multiples_vanish(100 * era, a, 4);
    vstd::arithmetic::div_mod::lemma_mod_multiples_vanish(4 * era, a, 100);
    vstd::arithmetic::div_mod::lemma_mod_multiples_vanish(era, a, 400);
    assert(4 * (100 * era) + a == a + 400 * era) by (nonlinear_arith);
    assert(100 * (4 * era) + a == a + 400 * era) by (nonlinear_arith);
    assert(400 * era + a == a + 400 * era);
}

/// Days since 1970-01-01 to `(year, month, day)` in the proleptic Gregorian
/// calendar (the algorithm of H. Hinnant's `civil_from_days`).
pub fn civil_from_days(z: i64) -> (r: (i64, u32, u32))
    requires
        z <= i64::MAX - 719468,
    ensures
        is_valid_date(r.0 as int, r.1 as int, r.2 as int),
        days_from_civil(r.0 as int, r.1 as int, r.2 as int) == z,
{
    let z2: i64 = z + 719468;
    // The era: floor(z2 / 146097).
    let era: i64 = if z2 >= 0 {
        (z2 as u64 / 146097) as i64
    } else {
        let n1: u64 = (-(z2 + 1)) as u64;
        -((n1 / 146097) as i64) - 1
    };
    proof {
        if z2 >= 0 {
            let q = z2 as u64 / 146097;
            let r = z2 as u64 % 146097;
            assert(z2 == q * 146097 + r);
            lemma_fundamental_div_mod_converse(z2 as int, 146097, q as int, r as int);
        } else {
            let n1 = (-(z2 + 1)) as int;
            let q = n1 / 146097;
            let r = n1 % 146097;
            assert(n1 == q * 146097 + r) by (nonlinear_arith)
                requires
                    q == n1 / 146097,
                    r == n1 % 146097,
            ;
            assert(z2 == (-q - 1) * 146097 + (146096 - r)) by (nonlinear_arith)
                requires
                    n1 == q * 146097 + r,
                    n1 == -(z2 + 1),
            ;
            lemma_fundamental_div_mod_converse(z2 as int, 146097, -q - 1, 146096 - r);
        }
        assert(era as int == (z2 as int) / 146097);
        assert(0 <= z2 - era * 146097 < 146097) by (nonlinear_arith)
            requires
                era as int == (z2 as int) / 146097,
        {
            vstd::arithmetic::div_mod::lemma_fundamental_div_mod(z2 as int, 146097);
        }
    }
    let doe: u32 = (z2 - era * 146097) as u32;
    proof {
        lemma_year_of_era(doe);
    }
    let yoe: u32 = (doe - doe / 1460 + doe / 36524 - doe / 146096) / 365;
    let doy: u32 = doe - (365 * yoe + yoe / 4 - yoe / 100);
    let mp: u32 = (5 * doy + 2) / 153;
    let start: u32 = (153 * mp + 2) / 5;
    proof {
        lemma_month_of_year(doy, mp, start, (doy - start + 1) as u32);
    }
    let d: u32 = doy - start + 1;
    let m: u32 = if mp < 10 {
        mp + 3
    } else {
        mp - 9
    };
    let y0: i64 = yoe as i64 + era * 400;
    let y: i64 = if m <= 2 {
        y0 + 1
    } else {
        y0
    };
    proof {
        // The inverse: the year before March is `y0`, whose era is `era`.
        let yy: int = y0 as int;
        assert(yy == 400 * era + yoe);
        lemma_fundamental_div_mod_converse(yy, 400, era as int, yoe as int);
        assert(yy / 400 == era);
        assert(yy - (yy / 400) * 400 == yoe);
        // A February day 29 falls in a leap year.
        if mp == 11 && doy == 365 {
            lemma_leap_day(doe, yoe);
            lemma_shift_by_eras(yoe + 1, era as int);
            assert(y == yoe + 1 + 400 * era);
        }
    }
    (y, m, d)
}

// ---------------------------------------------------------------------------
// Timestamps
// ---------------------------------------------------------------------------
/// `n` in decimal, padded with zeros on the left to at least `width` digits.
pub open spec fn padded(n: nat, width: nat) -> Seq<char> {
    let digits = decimal(n);
    if digits.len() < width {
        Seq::new((width - digits.len()) as nat, |i: int| '0') + digits
    } else {
        digits
    }
}

/// Append `n` in decimal with at least `width` digits.
fn push_padded(out: &mut String, n: u64, width: usize)
    ensures
        final(out)@ == old(out)@ + padded(n as nat, width as nat),
{
    let mut digits = String::new();
    push_decimal(&mut digits, n);
    let dv = crate::text::chars_of(digits.as_str());
    let ghost start = out@;
    if dv.len() < width {
        let zeros = width - dv.len();
        let mut i: usize = 0;
        while i < zeros
            invariant
                i <= zeros,
                out@ == start + Seq::new(i as nat, |k: int| '0'),
            decreases zeros - i,
        {
            out.push('0');
            i = i + 1;
            assert(out@ =~= start + Seq::new(i as nat, |k: int| '0'));
        }
    }
    push_chars(out, &dv);
    assert(out@ =~= start + padded(n as nat, width as nat));
}

/// A March-based month and day give back the month from the day of the year.
proof fn lemma_day_of_year(mp: u32, d: u32, start: u32, doy: u32, mp2: u32)
    by (bit_vector)
    requires
        mp <= 11,
        1 <= d,
        mp == 11 ==> d <= 29,
        mp != 11 ==> d <= 31,
        mp == 1 || mp == 3 || mp == 6 || mp == 8 ==> d <= 30,
        start == ((153 * mp + 2) / 5) as u32,
        doy == ((start + d) - 1) as u32,
        mp2 == ((5 * doy + 2) / 153) as u32,
    ensures
        mp2 == mp,
        doy <= 365,
        doy == 365 ==> mp == 11 && d == 29,
{
}

/// A year of an era and a day of that year give back the year.
proof fn lemma_year_back(yoe: u32, doy: u32, yn: u32, doe: u32, y2: u32)
    by (bit_vector)
    requires
        yoe <= 399,
        doy <= 365,
        yn == (yoe + 1) as u32,
        doy == 365 ==> (yn % 4 == 0 && yn % 100 != 0) || yn % 400 == 0,
        doe == (365 * yoe + yoe / 4 - yoe / 100 + doy) as u32,
        y2 == ((doe - doe / 1460 + doe / 36524 - doe / 146096) / 365) as u32,
    ensures
        doe <= 146096,
        y2 == yoe,
{
}

/// The parts `days_from_civil` takes a date apart into, for a valid date:
/// the era and the day of the era, which come back from the day number.
proof fn lemma_decompose(y: int, m: int, d: int)
    requires
        is_valid_date(y, m, d),
    ensures
        ({
            let yy = if m <= 2 { y - 1 } else { y };
            let era = yy / 400;
            let yoe = yy - era * 400;
            let mp = if m > 2 { m - 3 } else { m + 9 };
            let doy = (153 * mp + 2) / 5 + d - 1;
            let doe = yoe * 365 + yoe / 4 - yoe / 100 + doy;
            &&& 0 <= yoe <= 399
            &&& 0 <= doe <= 146096
            &&& (doe - doe / 1460 + doe / 36524 - doe / 146096) / 365 == yoe
            &&& (5 * doy + 2) / 153 == mp
            &&& days_from_civil(y, m, d) + 719468 == era * 146097 + doe
        }),
{
    let yy = if m <= 2 { y - 1 } else { y };
    let era = yy / 400;
    let yoe = yy - era * 400;
    let mp = if m > 2 { m - 3 } else { m + 9 };
    let doy = (153 * mp + 2) / 5 + d - 1;
    let doe = yoe * 365 + yoe / 4 - yoe / 100 + doy;
    vstd::arithmetic::div_mod::lemma_fundamental_div_mod(yy, 400);
    assert(0 <= yoe < 400);
    if m == 2 && d == 29 {
        assert(is_leap(y));
        lemma_shift_by_eras(yoe + 1, era);
        assert(y == yoe + 1 + 400 * era);
    }
    let start = (153 * mp + 2) / 5;
    lemma_day_of_year(mp as u32, d as u32, start as u32, doy as u32, ((5 * doy + 2) / 153) as u32);
    lemma_year_back(yoe as u32, doy as u32, (yoe + 1) as u32, doe as u32, ((doe - doe / 1460
        + doe / 36524 - doe / 146096) / 365) as u32);
}

/// Distinct dates have distinct day numbers.
pub proof fn days_from_civil_injective(y1: int, m1: int, d1: int, y2: int, m2: int, d2: int)
    requires
        is_valid_date(y1, m1, d1),
        is_valid_date(y2, m2, d2),
        days_from_civil(y1, m1, d1) == days_from_civil(y2, m2, d2),
    ensures
        y1 == y2 && m1 == m2 && d1 == d2,
{
    lemma_decompose(y1, m1, d1);
    lemma_decompose(y2, m2, d2);
    let x = days_from_civil(y1, m1, d1) + 719468;
    let yy1 = if m1 <= 2 { y1 - 1 } else { y1 };
    let yy2 = if m2 <= 2 { y2 - 1 } else { y2 };
    let era1 = yy1 / 400;
    let era2 = yy2 / 400;
    let yoe1 = yy1 - era1 * 400;
    let yoe2 = yy2 - era2 * 400;
    let mp1 = if m1 > 2 { m1 - 3 } else { m1 + 9 };
    let mp2 = if m2 > 2 { m2 - 3 } else { m2 + 9 };
    let doe1 = yoe1 * 365 + yoe1 / 4 - yoe1 / 100 + (153 * mp1 + 2) / 5 + d1 - 1;
    let doe2 = yoe2 * 365 + yoe2 / 4 - yoe2 / 100 + (153 * mp2 + 2) / 5 + d2 - 1;
    lemma_fundamental_div_mod_converse(x, 146097, era1, doe1);
    lemma_fundamental_div_mod_converse(x, 146097, era2, doe2);
    assert(era1 == era2 && doe1 == doe2);
    assert(yoe1 == yoe2);
    assert(mp1 == mp2);
}

/// The Gregorian day after `(y, m, d)`.
pub open spec fn next_date(y: int, m: int, d: int) -> (int, int, int) {
    if d < days_in_month(y, m) {
        (y, m, d + 1)
    } else if m < 12 {
        (y, m + 1, 1)
    } else {
        (y + 1, 1, 1)
    }
}

/// The day after a date is a date, one day number later.
proof fn lemma_next_date(y: int, m: int, d: int)
    requires
        is_valid_date(y, m, d),
    ensures
        is_valid_date(next_date(y, m, d).0, next_date(y, m, d).1, next_date(y, m, d).2),
        days_from_civil(next_date(y, m, d).0, next_date(y, m, d).1, next_date(y, m, d).2)
            == days_from_civil(y, m, d) + 1,
{
    if d == days_in_month(y, m) && m == 2 {
        let yy = y - 1;
        let era = yy / 400;
        let yoe = yy - era * 400;
        vstd::arithmetic::div_mod::lemma_fundamental_div_mod(yy, 400);
        assert(0 <= yoe < 400);
        if yoe < 399 {
            lemma_fundamental_div_mod_converse(y, 400, era, yoe + 1);
            assert(y / 400 == era);
        } else {
            lemma_fundamental_div_mod_converse(y, 400, era + 1, 0);
            assert(y / 400 == era + 1);
        }
        assert(y % 4 == (yoe + 1) % 4);
        assert(y % 100 == (yoe + 1) % 100);
        assert(y % 400 == (yoe + 1) % 400);
    }
}

/// Day numbers that differ by one belong to consecutive days: when
/// `civil_from_days(z) == (y, m, d)`, `civil_from_days(z + 1)` is the
/// Gregorian day after `(y, m, d)`.
pub proof fn consecutive_day_numbers(y: int, m: int, d: int, y2: int, m2: int, d2: int)
    requires
        is_valid_date(y, m, d),
        is_valid_date(y2, m2, d2),
        days_from_civil(y2, m2, d2) == days_from_civil(y, m, d) + 1,
    ensures
        (y2, m2, d2) == next_date(y, m, d),
{
    lemma_next_date(y, m, d);
    let (ny, nm, nd) = next_date(y, m, d);
    days_from_civil_injective(y2, m2, d2, ny, nm, nd);
}

/// The date of a day number.
pub open spec fn civil(days: int) -> (int, int, int) {
    choose|y: int, m: int, d: int| is_valid_date(y, m, d) && days_from_civil(y, m, d) == days
}

/// The timestamp text of `secs` seconds and `millis` milliseconds after the
/// Unix epoch: `YYYY-MM-DDTHH:MM:SS.mmmZ`, in UTC.
pub open spec fn timestamp_text(secs: int, millis: nat) -> Seq<char> {
    let tod = secs % 86400;
    let (y, m, d) = civil(secs / 86400);
    padded(y as nat, 4) + "-"@ + padded(m as nat, 2) + "-"@ + padded(d as nat, 2) + "T"@
        + padded((tod / 3600) as nat, 2) + ":"@ + padded(((tod % 3600) / 60) as nat, 2) + ":"@
        + padded((tod % 60) as nat, 2) + "."@ + padded(millis, 3) + "Z"@
}

/// RFC 3339 UTC timestamp of `secs` seconds and `millis` milliseconds after
/// the Unix epoch.
pub fn timestamp(secs: u64, millis: u32) -> (r: String)
    requires
        secs <= i64::MAX,
        millis < 1000,
    ensures
        r@ == timestamp_text(secs as int, millis as nat),
{
    let days: u64 = secs / 86400;
    let tod: u64 = secs % 86400;
    let (y, m, d) = civil_from_days(days as i64);
    proof {
        let c = civil(days as int);
        assert(is_valid_date(y as int, m as int, d as int) && days_from_civil(y as int, m as int, d as int) == days);
        days_from_civil_injective(y as int, m as int, d as int, c.0, c.1, c.2);
        assert(y >= 0) by {
            lemma_decompose(y as int, m as int, d as int);
        }
    }
    let mut out = String::new();
    push_padded(&mut out, y as u64, 4);
    out.push('-');
    push_padded(&mut out, m as u64, 2);
    out.push('-');
    push_padded(&mut out, d as u64, 2);
    out.push('T');
    push_padded(&mut out, tod / 3600, 2);
    out.push(':');
    push_padded(&mut out, (tod % 3600) / 60, 2);
    out.push(':');
    push_padded(&mut out, tod % 60, 2);
    out.push('.');
    push_padded(&mut out, millis as u64, 3);
    out.push('Z');
    proof {
        reveal_strlit("-");
        reveal_strlit("T");
        reveal_strlit(":");
        reveal_strlit(".");
        reveal_strlit("Z");
    }
    assert(out@ =~= timestamp_text(secs as int, millis as nat));
    out
}

// ---------------------------------------------------------------------------
// Log lines
// ---------------------------------------------------------------------------
/// A log line: `[<timestamp>] <message>`.
pub open spec fn log_line(ts: Seq<char>, msg: Seq<char>) -> Seq<char> {
    "["@ + ts + "] "@ + msg
}

/// The log line of an informational message stamped `ts`.
pub fn info(ts: &str, msg: &str) -> (r: String)
    ensures
        r@ == log_line(ts@, msg@),
{
    let mut s = String::from_str("[");
    push_chars(&mut s, &crate::text::chars_of(ts));
    push_chars(&mut s, &crate::text::chars_of("] "));
    push_chars(&mut s, &crate::text::chars_of(msg));
    s
}

/// The log line of an error stamped `ts`: the message prefixed `ERROR: `.
pub fn error(ts: &str, msg: &str) -> (r: String)
    ensures
        r@ == log_line(ts@, "ERROR: "@ + msg@),
{
    let mut m = String::from_str("ERROR: ");
    push_chars(&mut m, &crate::text::chars_of(msg));
    info(ts, m.as_str())
}

} // verus!
