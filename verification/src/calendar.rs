//! Dates: the day of the calendar that is so many days from the epoch, and the
//! time stamp of a file name.
use vstd::prelude::*;
use crate::number::{dec, dec_text, pad_left, pad_left_text};

verus! {

/// Whether a year has a leap day.
pub open spec fn leap(y: int) -> bool {
    y % 4 == 0 && (y % 100 != 0 || y % 400 == 0)
}

/// The days of a month.
pub open spec fn month_days(y: int, m: int) -> int {
    if m == 2 {
        if leap(y) {
            29
        } else {
            28
        }
    } else if m == 4 || m == 6 || m == 9 || m == 11 {
        30
    } else {
        31
    }
}

/// The days of a year before its month `m`.
pub open spec fn days_before_month(y: int, m: int) -> int
    decreases m,
{
    if m <= 1 {
        0
    } else {
        days_before_month(y, m - 1) + month_days(y, m - 1)
    }
}

/// The days from the first day of the year one to the first day of year `y`:
/// 365 for each year, and one for each leap year.
pub open spec fn days_before_year(y: int) -> int {
    365 * (y - 1) + (y - 1) / 4 - (y - 1) / 100 + (y - 1) / 400
}

/// Whether there is such a day.
pub open spec fn is_date(y: int, m: int, d: int) -> bool {
    1 <= m <= 12 && 1 <= d <= month_days(y, m)
}

/// The days from the first of January 1970 to a date.
pub open spec fn day_number(y: int, m: int, d: int) -> int {
    days_before_year(y) + days_before_month(y, m) + d - 1 - 719162
}

/// A year is as long as its months, and the next year follows it.
pub proof fn law_years_follow_each_other(y: int)
    ensures
        days_before_year(y + 1) == days_before_year(y) + days_before_month(y, 12) + month_days(
            y,
            12,
        ),
        day_number(1970, 1, 1) == 0,
{
    reveal_with_fuel(days_before_month, 13);
}

/// Different dates have different numbers: a number stands for one date only.
pub proof fn law_dates_are_numbered_once(y: int, m: int, d: int, y2: int, m2: int, d2: int)
    requires
        is_date(y, m, d),
        is_date(y2, m2, d2),
        day_number(y, m, d) == day_number(y2, m2, d2),
    ensures
        y == y2,
        m == m2,
        d == d2,
{
    lemma_in_year(y, m, d);
    lemma_in_year(y2, m2, d2);
    if y < y2 {
        lemma_years_ascend(y + 1, y2);
    } else if y2 < y {
        lemma_years_ascend(y2 + 1, y);
    } else {
        lemma_in_month(y, m, m2);
        lemma_in_month(y, m2, m);
    }
}

proof fn lemma_in_month(y: int, m: int, m2: int)
    requires
        1 <= m <= 12,
        1 <= m2 <= 12,
    ensures
        m < m2 ==> days_before_month(y, m) + month_days(y, m) <= days_before_month(y, m2),
{
    reveal_with_fuel(days_before_month, 13);
}

proof fn lemma_in_year(y: int, m: int, d: int)
    requires
        is_date(y, m, d),
    ensures
        days_before_year(y) - 719162 <= day_number(y, m, d) < days_before_year(y + 1) - 719162,
{
    law_years_follow_each_other(y);
    reveal_with_fuel(days_before_month, 13);
}

proof fn lemma_years_ascend(a: int, b: int)
    requires
        a <= b,
    ensures
        days_before_year(a) <= days_before_year(b),
    decreases b - a,
{
    if a < b {
        law_years_follow_each_other(a);
        reveal_with_fuel(days_before_month, 13);
        lemma_years_ascend(a + 1, b);
    }
}

#[verifier::spinoff_prover]
#[verifier::rlimit(60)]
proof fn lemma_march_year(y: int, era: int, c: int, q: int, r: int)
    requires
        0 <= c <= 3,
        0 <= q <= 24,
        0 <= r <= 3,
        y == 400 * era + 100 * c + 4 * q + r,
    ensures
        y / 4 == 100 * era + 25 * c + q,
        y / 100 == 4 * era + c,
        y / 400 == era,
        leap(y + 1) <==> (r == 3 && (q != 24 || c == 3)),
{
    assert((y + 1) % 4 == (r + 1) % 4);
    assert((y + 1) % 100 == (4 * q + r + 1) % 100);
    assert((y + 1) % 400 == (100 * c + 4 * q + r + 1) % 400);
}

/// The date that is `z` days from the first of January 1970: year, month, day.
pub fn civil_from_days(z: i64) -> (r: (i64, u32, u32))
    ensures
        is_date(r.0 as int, r.1 as int, r.2 as int),
        day_number(r.0 as int, r.1 as int, r.2 as int) == z,
{
    // Days from the first of March of the year zero, and the 400-year cycle.
    let days: i128 = z as i128 + 719_468;
    let era: i128 = if days >= 0 {
        days / 146_097
    } else {
        (days - 146_096) / 146_097
    };
    let doe: i128 = days - era * 146_097;
    assert(0 <= doe < 146_097);
    // Centuries, four-year cycles and years of the cycle; the last ones of each
    // kind take the leap day.
    let c: i128 = if doe / 36_524 > 3 {
        3
    } else {
        doe / 36_524
    };
    let in_century: i128 = doe - c * 36_524;
    let q: i128 = in_century / 1_461;
    let in_quad: i128 = in_century - q * 1_461;
    let r: i128 = if in_quad / 365 > 3 {
        3
    } else {
        in_quad / 365
    };
    let doy: i128 = in_quad - r * 365;
    let year: i128 = era * 400 + c * 100 + q * 4 + r;
    assert(q <= 24);
    assert(0 <= doy <= 365);
    let mp: i128 = (5 * doy + 2) / 153;
    let d: i128 = doy - (153 * mp + 2) / 5 + 1;
    let m: i128 = if mp < 10 {
        mp + 3
    } else {
        mp - 9
    };
    let y: i128 = if m <= 2 {
        year + 1
    } else {
        year
    };
    proof {
        lemma_march_year(year as int, era as int, c as int, q as int, r as int);
        lemma_march_month(year as int, doy as int);
        assert(doy == 365 ==> leap(year as int + 1));
        assert(365 * year + year / 4 - year / 100 + year / 400 + doy == days);
    }
    (y as i64, m as u32, d as u32)
}

proof fn lemma_march_month(year: int, doy: int)
    requires
        0 <= doy <= 365,
        doy == 365 ==> leap(year + 1),
    ensures
        ({
            let mp = (5 * doy + 2) / 153;
            let d = doy - (153 * mp + 2) / 5 + 1;
            let m = if mp < 10 {
                mp + 3
            } else {
                mp - 9
            };
            let y = if m <= 2 {
                year + 1
            } else {
                year
            };
            &&& is_date(y, m, d)
            &&& day_number(y, m, d) + 719468 == 365 * year + year / 4 - year / 100 + year / 400
                + doy
        }),
{
    reveal_with_fuel(days_before_month, 13);
    let mp = (5 * doy + 2) / 153;
    assert(0 <= mp <= 11);
    law_years_follow_each_other(year);
    if mp == 0 {
    } else if mp == 1 {
    } else if mp == 2 {
    } else if mp == 3 {
    } else if mp == 4 {
    } else if mp == 5 {
    } else if mp == 6 {
    } else if mp == 7 {
    } else if mp == 8 {
    } else if mp == 9 {
    } else if mp == 10 {
    } else {
        assert(mp == 11);
    }
}

/// `n` in decimal with at least two digits.
pub open spec fn two_digits(n: nat) -> Seq<char> {
    pad_left(dec(n), 2, '0')
}

/// The time stamp of a moment: `YYYYMMDD-HHMMSS`.
pub open spec fn stamp(y: nat, m: nat, d: nat, secs: nat) -> Seq<char> {
    pad_left(dec(y), 4, '0') + two_digits(m) + two_digits(d) + "-"@ + two_digits(secs / 3600)
        + two_digits(secs % 3600 / 60) + two_digits(secs % 60)
}

fn two_digit_text(n: u64) -> (r: String)
    ensures
        r@ == two_digits(n as nat),
{
    pad_left_text(dec_text(n).as_str(), 2, '0')
}

/// The time stamp of the moment that is `secs` seconds after the epoch.
pub fn timestamp(secs: u64) -> (r: String)
    ensures
        exists|y: int, m: int, d: int|
            #![trigger day_number(y, m, d)]
            {
                &&& is_date(y, m, d)
                &&& day_number(y, m, d) == secs as int / 86400
                &&& 1 <= y
                &&& r@ == stamp(y as nat, m as nat, d as nat, (secs % 86400) as nat)
            },
{
    let (y, m, d) = civil_from_days((secs / 86_400) as i64);
    proof {
        lemma_in_year(y as int, m as int, d as int);
        if y < 1 {
            lemma_years_ascend(y + 1, 1);
        }
    }
    let rem: u64 = secs % 86_400;
    let mut s: String = pad_left_text(dec_text(y as u64).as_str(), 4, '0');
    s.append(two_digit_text(m as u64).as_str());
    s.append(two_digit_text(d as u64).as_str());
    s.append("-");
    s.append(two_digit_text(rem / 3_600).as_str());
    s.append(two_digit_text(rem % 3_600 / 60).as_str());
    s.append(two_digit_text(rem % 60).as_str());
    proof {
        assert(day_number(y as int, m as int, d as int) == secs as int / 86400);
        assert(s@ == stamp(y as nat, m as nat, d as nat, rem as nat));
    }
    s
}

/// A time stamp is the date in eight digits, a dash, and the hours, the minutes
/// and the seconds in two digits each.
pub proof fn law_stamps_tell_the_time(y: nat, m: nat, d: nat, h: nat, min: nat, sec: nat)
    requires
        min < 60,
        sec < 60,
    ensures
        stamp(y, m, d, h * 3600 + min * 60 + sec) == pad_left(dec(y), 4, '0') + pad_left(
            dec(m),
            2,
            '0',
        ) + pad_left(dec(d), 2, '0') + seq!['-'] + pad_left(dec(h), 2, '0') + pad_left(
            dec(min),
            2,
            '0',
        ) + pad_left(dec(sec), 2, '0'),
{
    reveal_strlit("-");
    let secs = h * 3600 + min * 60 + sec;
    assert(secs / 3600 == h && secs % 3600 / 60 == min && secs % 60 == sec);
    assert("-"@ =~= seq!['-']);
}

}
