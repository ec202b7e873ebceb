//! The proleptic Gregorian calendar in UTC, at the resolution of months:
//! on which day (counted from 1970-01-01) each month begins, and which month
//! holds a given Unix time.

use vstd::prelude::*;

verus! {

/// Seconds in a day.
pub const SECONDS_PER_DAY: i64 = 86400;

/// Whether `y` (astronomical numbering: year 0 is 1 BCE) is a leap year.
pub open spec fn is_leap_year(y: int) -> bool {
    y % 4 == 0 && (y % 100 != 0 || y % 400 == 0)
}

/// How many of the years `1..=y` are leap years, as a prefix count that also
/// serves for `y <= 0` in differences.
pub open spec fn leap_count(y: int) -> int {
    y / 4 - y / 100 + y / 400
}

/// The day number (days since 1970-01-01) of January 1 of year `y`.
pub open spec fn days_before_year(y: int) -> int {
    365 * (y - 1970) + leap_count(y - 1) - leap_count(1969)
}

/// Days in the months of a common year before month `m` (`1..=12`).
pub open spec fn days_before_month_common(m: int) -> int {
    if m <= 1 {
        0
    } else if m == 2 {
        31
    } else if m == 3 {
        59
    } else if m == 4 {
        90
    } else if m == 5 {
        120
    } else if m == 6 {
        151
    } else if m == 7 {
        181
    } else if m == 8 {
        212
    } else if m == 9 {
        243
    } else if m == 10 {
        273
    } else if m == 11 {
        304
    } else {
        334
    }
}

/// The day number of the first day of month `m` of year `y`.
pub open spec fn first_day_of_month(y: int, m: int) -> int {
    days_before_year(y) + days_before_month_common(m) + if m > 2 && is_leap_year(y) {
        1int
    } else {
        0int
    }
}

/// Months counted from January of year 0: `12 * year + month - 1`.
pub open spec fn month_number(ym: (i32, u32)) -> int {
    ym.0 * 12 + ym.1 - 1
}

/// The day number of the first day of the month with number `k`.
pub open spec fn first_day_of_month_number(k: int) -> int {
    first_day_of_month(k / 12, k % 12 + 1)
}

/// Whether `ym` is the UTC calendar month that holds the Unix time `ts`
/// (seconds): its month lies in `1..=12`, and `ts` falls on or after the
/// start of that month and before the start of the next.
pub open spec fn month_holds(ym: (i32, u32), ts: int) -> bool {
    &&& 1 <= ym.1 <= 12
    &&& first_day_of_month_number(month_number(ym)) * SECONDS_PER_DAY <= ts
    &&& ts < first_day_of_month_number(month_number(ym) + 1) * SECONDS_PER_DAY
}

proof fn lemma_year_step(y: int)
    ensures
        days_before_year(y + 1) - days_before_year(y) == 365 + if is_leap_year(y) {
            1int
        } else {
            0int
        },
{
    assert(y / 4 - (y - 1) / 4 == if y % 4 == 0 {
        1int
    } else {
        0int
    });
    assert(y / 100 - (y - 1) / 100 == if y % 100 == 0 {
        1int
    } else {
        0int
    });
    assert(y / 400 - (y - 1) / 400 == if y % 400 == 0 {
        1int
    } else {
        0int
    });
    assert(y % 400 == 0 ==> y % 100 == 0);
    assert(y % 100 == 0 ==> y % 4 == 0);
}

/// Every month has 28 to 31 days.
pub proof fn lemma_month_length(k: int)
    ensures
        28 <= first_day_of_month_number(k + 1) - first_day_of_month_number(k) <= 31,
{
    let y = k / 12;
    let r = k % 12;
    if r == 11 {
        assert((k + 1) / 12 == y + 1 && (k + 1) % 12 == 0);
        lemma_year_step(y);
    } else {
        assert((k + 1) / 12 == y && (k + 1) % 12 == r + 1);
    }
}

/// Months that lie `b - a` apart begin at least `28 * (b - a)` days apart.
pub proof fn lemma_months_apart(a: int, b: int)
    requires
        a <= b,
    ensures
        first_day_of_month_number(b) - first_day_of_month_number(a) >= 28 * (b - a),
    decreases b - a,
{
    if a < b {
        lemma_months_apart(a, b - 1);
        lemma_month_length(b - 1);
    }
}

/// Thirty days back from an instant, the month is the same or one of the
/// two before it.
pub proof fn lemma_thirty_days_back(later: (i32, u32), earlier: (i32, u32), ts: int)
    requires
        month_holds(later, ts),
        month_holds(earlier, ts - 30 * SECONDS_PER_DAY),
    ensures
        month_number(earlier) <= month_number(later) <= month_number(earlier) + 2,
{
    let k1 = month_number(later);
    let k2 = month_number(earlier);
    if k1 < k2 {
        lemma_months_apart(k1 + 1, k2);
        assert(false);
    }
    if k1 > k2 + 2 {
        lemma_months_apart(k2 + 1, k1);
        assert(false);
    }
}

/// At most one month holds an instant.
pub proof fn lemma_month_unique(a: (i32, u32), b: (i32, u32), ts: int)
    requires
        month_holds(a, ts),
        month_holds(b, ts),
    ensures
        a == b,
{
    let ka = month_number(a);
    let kb = month_number(b);
    if ka < kb {
        lemma_months_apart(ka + 1, kb);
        assert(false);
    }
    if kb < ka {
        lemma_months_apart(kb + 1, ka);
        assert(false);
    }
    assert(a.0 == b.0 && a.1 == b.1);
}

} // verus!
