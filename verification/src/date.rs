//! Dates of the Gregorian calendar.

use vstd::prelude::*;

use crate::text;
use crate::text::{decimal_chars, extend_chars, extend_str, string_of};

verus! {

pub open spec fn is_leap(y: int) -> bool {
    y % 4 == 0 && (y % 100 != 0 || y % 400 == 0)
}

/// How many of the years from 0 up to `y`, without `y`, are leap years.
pub open spec fn leap_years_before(y: int) -> int {
    (y + 3) / 4 - (y + 99) / 100 + (y + 399) / 400
}

pub open spec fn month_length(y: int, m: int) -> int {
    if m == 2 {
        if is_leap(y) {
            29
        } else {
            28
        }
    } else if m == 4 || m == 6 || m == 9 || m == 11 {
        30
    } else {
        31
    }
}

/// The days of a year before its month `m`.
pub open spec fn days_before_month(y: int, m: int) -> int
    decreases m,
{
    if m <= 1 {
        0
    } else {
        days_before_month(y, m - 1) + month_length(y, m - 1)
    }
}

/// The days from the first of January 1970 to a date.
pub open spec fn day_number(y: int, m: int, d: int) -> int {
    365 * y + leap_years_before(y) + days_before_month(y, m) + d - 1 - 719528
}

pub open spec fn is_date(y: int, m: int, d: int) -> bool {
    1 <= m <= 12 && 1 <= d <= month_length(y, m)
}

proof fn leap_years_through(y: int)
    requires
        y >= 0,
    ensures
        leap_years_before(y) + (if is_leap(y) {
            1int
        } else {
            0int
        }) == 1 + y / 4 - y / 100 + y / 400,
        leap_years_before(y + 1) == 1 + y / 4 - y / 100 + y / 400,
{
    assert((y + 3) / 4 == y / 4 + (if y % 4 == 0 {
        0int
    } else {
        1int
    }));
    assert((y + 99) / 100 == y / 100 + (if y % 100 == 0 {
        0int
    } else {
        1int
    }));
    assert((y + 399) / 400 == y / 400 + (if y % 400 == 0 {
        0int
    } else {
        1int
    }));
    assert(y % 400 == 0 ==> y % 100 == 0);
    assert(y % 100 == 0 ==> y % 4 == 0);
    assert((y + 4) / 4 == y / 4 + 1);
    assert((y + 100) / 100 == y / 100 + 1);
    assert((y + 400) / 400 == y / 400 + 1);
}

/// The days of a year before a month, for a year that is or is not a leap year.
proof fn month_table(y: int)
    ensures
        ({
            let l = if is_leap(y) {
                1int
            } else {
                0int
            };
            &&& days_before_month(y, 1) == 0
            &&& days_before_month(y, 2) == 31
            &&& days_before_month(y, 3) == 59 + l
            &&& days_before_month(y, 4) == 90 + l
            &&& days_before_month(y, 5) == 120 + l
            &&& days_before_month(y, 6) == 151 + l
            &&& days_before_month(y, 7) == 181 + l
            &&& days_before_month(y, 8) == 212 + l
            &&& days_before_month(y, 9) == 243 + l
            &&& days_before_month(y, 10) == 273 + l
            &&& days_before_month(y, 11) == 304 + l
            &&& days_before_month(y, 12) == 334 + l
        }),
{
    reveal_with_fuel(days_before_month, 13);
}

/// The days up to the first of March of a year, counted by centuries and
/// groups of four years.
proof fn march_years(era: int, c: int, q: int, a: int)
    requires
        0 <= era,
        0 <= c <= 3,
        0 <= q <= 24,
        0 <= a <= 3,
    ensures
        ({
            let y = era * 400 + c * 100 + q * 4 + a;
            365 * y + y / 4 - y / 100 + y / 400 == 146097 * era + 36524 * c + 1461 * q + 365 * a
        }),
{
    let y = era * 400 + c * 100 + q * 4 + a;
    assert(y / 4 == 100 * era + 25 * c + q);
    assert(y / 100 == 4 * era + c);
    assert(y / 400 == era);
}

/// A group of four years that is complete ends with a leap day.
proof fn last_day_is_a_leap_day(era: int, c: int, q: int)
    requires
        0 <= era,
        0 <= c <= 3,
        0 <= q <= 24,
        q == 24 ==> c == 3,
    ensures
        is_leap(era * 400 + c * 100 + q * 4 + 4),
{
    let y = era * 400 + c * 100 + q * 4 + 4;
    assert(y % 4 == 0);
    if q < 24 {
        assert(y % 100 == q * 4 + 4);
    } else {
        assert(y % 400 == 0);
    }
}

/// The month and the day of a day that is counted from the first of March.
proof fn month_from_march(y: int, doy: int)
    requires
        0 <= y,
        0 <= doy <= 365,
        doy == 365 ==> is_leap(y + 1),
    ensures
        ({
            let mp = (5 * doy + 2) / 153;
            let d = doy - (153 * mp + 2) / 5 + 1;
            let m = if mp < 10 {
                mp + 3
            } else {
                mp - 9
            };
            let year = if mp < 10 {
                y
            } else {
                y + 1
            };
            &&& 0 <= mp <= 11
            &&& is_date(year, m, d)
            &&& day_number(year, m, d) == 365 * y + y / 4 - y / 100 + y / 400 + doy - 719468
        }),
{
    leap_years_through(y);
    month_table(y);
    month_table(y + 1);
    let mp = (5 * doy + 2) / 153;
    let d = doy - (153 * mp + 2) / 5 + 1;
    assert(0 <= mp <= 11);
    assert((153 * mp + 2) / 5 == (if mp == 0 {
        0int
    } else if mp == 1 {
        31
    } else if mp == 2 {
        61
    } else if mp == 3 {
        92
    } else if mp == 4 {
        122
    } else if mp == 5 {
        153
    } else if mp == 6 {
        184
    } else if mp == 7 {
        214
    } else if mp == 8 {
        245
    } else if mp == 9 {
        275
    } else if mp == 10 {
        306
    } else {
        337
    }));
}

/// The date that is `days` days after the first of January 1970.
pub fn epoch_days_to_ymd(days: u64) -> (r: (u64, u64, u64))
    requires
        days <= u64::MAX - 719468,
    ensures
        is_date(r.0 as int, r.1 as int, r.2 as int),
        day_number(r.0 as int, r.1 as int, r.2 as int) == days,
        r.0 >= 1970,
{
    // Years are counted from March, so that a leap day comes last.
    let z: u64 = days + 719468;
    let era: u64 = z / 146097;
    let doe: u64 = z % 146097;
    let c: u64 = if doe / 36524 < 3 {
        doe / 36524
    } else {
        3
    };
    let dc: u64 = doe - c * 36524;
    let q: u64 = dc / 1461;
    let dq: u64 = dc % 1461;
    let a: u64 = if dq / 365 < 3 {
        dq / 365
    } else {
        3
    };
    let doy: u64 = dq - a * 365;
    let y: u64 = era * 400 + c * 100 + q * 4 + a;
    let mp: u64 = (5 * doy + 2) / 153;
    let d: u64 = doy - (153 * mp + 2) / 5 + 1;
    proof {
        assert(q <= 24);
        assert(c < 3 ==> dc < 36524);
        march_years(era as int, c as int, q as int, a as int);
        if doy == 365 {
            assert(dq == 1460);
            last_day_is_a_leap_day(era as int, c as int, q as int);
        }
        month_from_march(y as int, doy as int);
    }
    if mp < 10 {
        (y, mp + 3, d)
    } else {
        (y + 1, mp - 9, d)
    }
}

/// Two dates on one day are one date.
pub proof fn a_day_is_one_date(y: int, m: int, d: int, y2: int, m2: int, d2: int)
    requires
        0 <= y,
        0 <= y2,
        is_date(y, m, d),
        is_date(y2, m2, d2),
        day_number(y, m, d) == day_number(y2, m2, d2),
    ensures
        y == y2 && m == m2 && d == d2,
{
    month_table(y);
    month_table(y2);
    if y < y2 {
        year_is_long(y, y2);
    } else if y2 < y {
        year_is_long(y2, y);
    }
}

/// A later year begins after the last day of an earlier one.
proof fn year_is_long(y: int, y2: int)
    requires
        0 <= y < y2,
    ensures
        365 * y2 + leap_years_before(y2) >= 365 * (y + 1) + leap_years_before(y + 1),
        leap_years_before(y + 1) == leap_years_before(y) + (if is_leap(y) {
            1int
        } else {
            0int
        }),
    decreases y2 - y,
{
    leap_years_through(y);
    if y + 1 < y2 {
        year_is_long(y, y2 - 1);
        leap_years_through(y2 - 1);
    }
}

/// `n` in at least `width` digits.
pub open spec fn padded(n: nat, width: int) -> Seq<char> {
    let s = text::decimal(n);
    Seq::new((if s.len() < width {
        width - s.len()
    } else {
        0
    }) as nat, |i: int| '0') + s
}

fn extend_padded(out: &mut Vec<char>, n: u64, width: usize)
    ensures
        final(out)@ == old(out)@ + padded(n as nat, width as int),
{
    let s = decimal_chars(n);
    let ghost start = out@;
    let mut k: usize = s.len();
    assert(start + Seq::new(0, |i: int| '0') =~= start);
    while k < width
        invariant
            s@.len() <= k,
            k <= width || k == s@.len(),
            out@ == start + Seq::new((k - s@.len()) as nat, |i: int| '0'),
        decreases width - k,
    {
        out.push('0');
        k = k + 1;
        assert(out@ =~= start + Seq::new((k - s@.len()) as nat, |i: int| '0'));
    }
    extend_chars(out, &s);
    assert(out@ =~= start + padded(n as nat, width as int));
}

/// The text of a moment that is `secs` seconds after the start of 1970.
pub open spec fn is_timestamp(secs: nat, t: Seq<char>) -> bool {
    exists|y: nat, m: nat, d: nat|
        #![trigger padded(y, 4), padded(m, 2), padded(d, 2)]
        is_date(y as int, m as int, d as int) && day_number(y as int, m as int, d as int) == secs
            / 86400 && t == padded(y, 4) + "-"@ + padded(m, 2) + "-"@ + padded(d, 2) + "T"@
            + padded(secs % 86400 / 3600, 2) + ":"@ + padded(secs % 3600 / 60, 2) + ":"@ + padded(
            secs % 60,
            2,
        ) + "Z"@
}

/// The moment `secs` seconds after the start of 1970, as
/// `2024-02-29T12:34:56Z`.
pub fn timestamp(secs: u64) -> (r: String)
    ensures
        is_timestamp(secs as nat, r@),
{
    let (y, m, d) = epoch_days_to_ymd(secs / 86400);
    let time: u64 = secs % 86400;
    let mut out: Vec<char> = Vec::new();
    extend_padded(&mut out, y, 4);
    extend_str(&mut out, "-");
    extend_padded(&mut out, m, 2);
    extend_str(&mut out, "-");
    extend_padded(&mut out, d, 2);
    extend_str(&mut out, "T");
    extend_padded(&mut out, time / 3600, 2);
    extend_str(&mut out, ":");
    extend_padded(&mut out, time % 3600 / 60, 2);
    extend_str(&mut out, ":");
    extend_padded(&mut out, time % 60, 2);
    extend_str(&mut out, "Z");
    assert(time % 3600 == secs % 3600);
    assert(time % 60 == secs % 60);
    assert(out@ =~= padded(y as nat, 4) + "-"@ + padded(m as nat, 2) + "-"@ + padded(d as nat, 2)
        + "T"@ + padded(secs as nat % 86400 / 3600, 2) + ":"@ + padded(secs as nat % 3600 / 60, 2)
        + ":"@ + padded(secs as nat % 60, 2) + "Z"@);
    string_of(&out)
}

} // verus!
