//! What the calendar promises: how days are counted, and what a moment is
//! written as.

use vstd::prelude::*;

use crate::date;
use crate::text;

verus! {

// ---------------------------------------------------------------------------
// Laws
// ---------------------------------------------------------------------------

/// Days are counted one after another: within a month, from a month to the
/// next, and from a year to the next. The count begins with 1970.
pub proof fn days_follow_one_another(y: int, m: int, d: int)
    requires
        date::is_date(y, m, d),
    ensures
        d < date::month_length(y, m) ==> date::is_date(y, m, d + 1) && date::day_number(y, m, d + 1) == date::day_number(
            y,
            m,
            d,
        ) + 1,
        d == date::month_length(y, m) && m < 12 ==> date::is_date(y, m + 1, 1) && date::day_number(y, m + 1, 1)
            == date::day_number(y, m, d) + 1,
        d == date::month_length(y, m) && m == 12 ==> date::is_date(y + 1, 1, 1) && date::day_number(y + 1, 1, 1)
            == date::day_number(y, m, d) + 1,
        date::day_number(1970, 1, 1) == 0,
{
    if m == 12 {
        days_of_a_year(y);
        leap_years_add_up(y);
    }
    assert(date::days_before_month(y + 1, 1) == 0);
    assert(date::days_before_month(1970, 1) == 0);
}

proof fn days_of_a_year(y: int)
    ensures
        date::days_before_month(y, 12) + 31 == if date::is_leap(y) {
            366int
        } else {
            365
        },
{
    reveal_with_fuel(date::days_before_month, 13);
}

proof fn leap_years_add_up(y: int)
    ensures
        date::leap_years_before(y + 1) - date::leap_years_before(y) == if date::is_leap(y) {
            1int
        } else {
            0
        },
{
    quotient_steps(y, 4);
    quotient_steps(y, 100);
    quotient_steps(y, 400);
    assert(y % 400 == 0 ==> y % 100 == 0);
    assert(y % 100 == 0 ==> y % 4 == 0);
}

/// A quotient that is rounded up grows where the dividend was a multiple.
proof fn quotient_steps(y: int, n: int)
    requires
        n == 4 || n == 100 || n == 400,
    ensures
        (y + n) / n - (y + n - 1) / n == if y % n == 0 {
            1int
        } else {
            0
        },
{
    if n == 4 {
        assert((y + 4) / 4 - (y + 3) / 4 == if y % 4 == 0 {
            1int
        } else {
            0
        });
    } else if n == 100 {
        assert((y + 100) / 100 - (y + 99) / 100 == if y % 100 == 0 {
            1int
        } else {
            0
        });
    } else {
        assert((y + 400) / 400 - (y + 399) / 400 == if y % 400 == 0 {
            1int
        } else {
            0
        });
    }
}

/// Every fourth year is a leap year but for the centuries, of which every
/// fourth is one.
pub proof fn leap_years_come_round(y: int)
    ensures
        y % 4 != 0 ==> !date::is_leap(y),
        date::is_leap(4 * y) || y % 25 == 0,
        date::is_leap(100 * y) <==> y % 4 == 0,
        date::is_leap(y + 400) == date::is_leap(y),
{
    assert((4 * y) % 4 == 0);
    assert((100 * y) % 4 == 0);
    assert((100 * y) % 100 == 0);
    assert((100 * y) % 400 == 0 <==> y % 4 == 0);
    assert((4 * y) % 100 == 0 <==> y % 25 == 0);
}

/// The months have their lengths.
pub proof fn months_have_their_lengths(y: int)
    ensures
        date::month_length(y, 1) == 31,
        date::month_length(y, 2) == if date::is_leap(y) {
            29int
        } else {
            28
        },
        date::month_length(y, 3) == 31,
        date::month_length(y, 4) == 30,
        date::month_length(y, 5) == 31,
        date::month_length(y, 6) == 30,
        date::month_length(y, 7) == 31,
        date::month_length(y, 8) == 31,
        date::month_length(y, 9) == 30,
        date::month_length(y, 10) == 31,
        date::month_length(y, 11) == 30,
        date::month_length(y, 12) == 31,
{
}

/// A number that is padded is as wide as asked for, and still that number.
pub proof fn padding_keeps_the_number(n: nat, width: int)
    ensures
        date::padded(n, width).len() >= width,
        text::decimal(n).len() >= width ==> date::padded(n, width) == text::decimal(n),
        text::ends_with(date::padded(n, width), text::decimal(n)),
        forall|i: int|
            0 <= i < date::padded(n, width).len() - text::decimal(n).len() ==> #[trigger] date::padded(
                n,
                width,
            )[i] == '0',
{
    let s = text::decimal(n);
    let p = date::padded(n, width);
    assert(p.subrange(p.len() - s.len(), p.len() as int) == s);
    if s.len() >= width {
        assert(p == s);
    }
}

/// What a moment is written as: a day, and the hours, minutes and seconds that
/// have gone by on it.
pub open spec fn moment_text(y: nat, m: nat, d: nat, h: nat, min: nat, s: nat) -> Seq<char> {
    date::padded(y, 4) + "-"@ + date::padded(m, 2) + "-"@ + date::padded(d, 2) + "T"@ + date::padded(h, 2) + ":"@ + date::padded(
        min,
        2,
    ) + ":"@ + date::padded(s, 2) + "Z"@
}

/// The parts of a moment make up the moment.
proof fn parts_of_a_moment(secs: nat)
    ensures
        secs % 86400 / 3600 < 24,
        secs % 3600 / 60 < 60,
        secs % 60 < 60,
        secs == ((secs / 86400 * 24 + secs % 86400 / 3600) * 60 + secs % 3600 / 60) * 60 + secs
            % 60,
{
    let day = secs / 86400;
    let hour = secs / 3600;
    let minute = secs / 60;
    assert(hour / 24 == day);
    assert(hour % 24 == secs % 86400 / 3600);
    assert(minute / 60 == hour);
    assert(minute % 60 == secs % 3600 / 60);
}

/// A moment is written as the day on which it falls and the hours, minutes and
/// seconds that have gone by on that day.
pub proof fn a_timestamp_tells_the_moment(secs: nat, t: Seq<char>)
    requires
        date::is_timestamp(secs, t),
    ensures
        exists|y: nat, m: nat, d: nat, h: nat, min: nat, s: nat|
            {
                &&& date::is_date(y as int, m as int, d as int)
                &&& h < 24
                &&& min < 60
                &&& s < 60
                &&& secs == ((date::day_number(y as int, m as int, d as int) * 24 + h) * 60 + min) * 60
                    + s
                &&& t == #[trigger] moment_text(y, m, d, h, min, s)
            },
{
    let (y, m, d) = choose|y: nat, m: nat, d: nat|
        #![trigger date::padded(y, 4), date::padded(m, 2), date::padded(d, 2)]
        date::is_date(y as int, m as int, d as int) && date::day_number(y as int, m as int, d as int) == secs
            / 86400 && t == date::padded(y, 4) + "-"@ + date::padded(m, 2) + "-"@ + date::padded(d, 2) + "T"@
            + date::padded(secs % 86400 / 3600, 2) + ":"@ + date::padded(secs % 3600 / 60, 2) + ":"@ + date::padded(
            secs % 60,
            2,
        ) + "Z"@;
    parts_of_a_moment(secs);
    assert(t == moment_text(y, m, d, secs % 86400 / 3600, secs % 3600 / 60, secs % 60));
}

} // verus!
