//! The proleptic Gregorian calendar: leap years, month lengths and the
//! correspondence between civil dates and day numbers counted from
//! 1970-01-01.
use vstd::prelude::*;
use vstd::arithmetic::div_mod::{
    lemma_fundamental_div_mod, lemma_fundamental_div_mod_converse, lemma_mod_bound,
};
use vstd::arithmetic::mul::{lemma_mul_is_commutative, lemma_mul_is_distributive_add};

verus! {

/// The earliest year a date can hold.
pub const MIN_YEAR: i32 = -262144;

/// The latest year a date can hold.
pub const MAX_YEAR: i32 = 262143;

/// Whether `y` is a leap year of the proleptic Gregorian calendar.
pub open spec fn is_leap_year(y: int) -> bool {
    y % 4 == 0 && (y % 100 != 0 || y % 400 == 0)
}

/// Number of days in year `y`.
pub open spec fn days_in_year(y: int) -> int {
    if is_leap_year(y) {
        366
    } else {
        365
    }
}

/// Number of days in month `m` (1-based) of a year that is a leap year or not.
pub open spec fn month_length(leap: bool, m: int) -> int {
    if m == 2 {
        if leap {
            29
        } else {
            28
        }
    } else if m == 4 || m == 6 || m == 9 || m == 11 {
        30
    } else {
        31
    }
}

/// Number of days of a year that come before the first day of month `m`.
pub open spec fn cumulative_days(leap: bool, m: int) -> int {
    let extra: int = if leap && m > 2 {
        1
    } else {
        0
    };
    extra + if m <= 1 {
        0int
    } else if m == 2 {
        31
    } else if m == 3 {
        59
    } else if m == 4 {
        90
    } else if m == 5 {
        120
    } else if m == 6 {
        151
    } else if m == 7 {
        181
    } else if m == 8 {
        212
    } else if m == 9 {
        243
    } else if m == 10 {
        273
    } else if m == 11 {
        304
    } else {
        334
    }
}

/// Number of days in month `m` of year `y`.
pub open spec fn days_in_month(y: int, m: int) -> int {
    month_length(is_leap_year(y), m)
}

/// The lengths of the months of the Gregorian calendar: 30 days in April,
/// June, September and November, 31 in the others but February, which has
/// 29 days in years divisible by 4 but not by 100, or by 400, and 28 in
/// the rest.
pub proof fn lemma_month_lengths(y: int)
    ensures
        days_in_month(y, 1) == 31,
        days_in_month(y, 2) == if y % 4 == 0 && (y % 100 != 0 || y % 400 == 0) {
            29int
        } else {
            28int
        },
        days_in_month(y, 3) == 31,
        days_in_month(y, 4) == 30,
        days_in_month(y, 5) == 31,
        days_in_month(y, 6) == 30,
        days_in_month(y, 7) == 31,
        days_in_month(y, 8) == 31,
        days_in_month(y, 9) == 30,
        days_in_month(y, 10) == 31,
        days_in_month(y, 11) == 30,
        days_in_month(y, 12) == 31,
{
}

/// Whether `(y, m, d)` names a day of the calendar.
pub open spec fn valid_ymd(y: int, m: int, d: int) -> bool {
    1 <= m <= 12 && 1 <= d <= days_in_month(y, m)
}

/// Whether a year lies in the range that dates can hold.
pub open spec fn year_in_range(y: int) -> bool {
    MIN_YEAR <= y <= MAX_YEAR
}

/// Number of leap years among the years before `y`, up to a constant.
pub open spec fn leaps_before(y: int) -> int {
    (y - 1) / 4 - (y - 1) / 100 + (y - 1) / 400
}

/// Day number of January 1st of year `y` (1970-01-01 is day 0).
pub open spec fn year_start(y: int) -> int {
    365 * (y - 1970) + leaps_before(y) - 477
}

/// 1-based day of the year of `(y, m, d)`.
pub open spec fn ordinal_of(y: int, m: int, d: int) -> int {
    cumulative_days(is_leap_year(y), m) + d
}

/// Day number of the civil date `(y, m, d)` (1970-01-01 is day 0).
pub open spec fn days_from_civil(y: int, m: int, d: int) -> int {
    year_start(y) + ordinal_of(y, m, d) - 1
}

/// Day of the week of day number `n`, counted from Monday (0) to Sunday (6).
pub open spec fn weekday_index(n: int) -> int {
    (n + 3) % 7
}

/// Smallest day number the calendar functions accept.
pub open spec fn min_day_number() -> int {
    year_start(MIN_YEAR - 1)
}

/// One past the largest day number the calendar functions accept.
pub open spec fn max_day_number() -> int {
    year_start(MAX_YEAR + 2)
}

/// Going from `y - 1` to `y`, the quotient by `d` grows by one exactly when
/// `d` divides `y`.
proof fn lemma_div_step(y: int, d: int)
    requires
        d > 0,
    ensures
        y / d - (y - 1) / d == (if y % d == 0 {
            1int
        } else {
            0int
        }),
{
    lemma_fundamental_div_mod(y - 1, d);
    lemma_mod_bound(y - 1, d);
    let q = (y - 1) / d;
    let r = (y - 1) % d;
    lemma_mul_is_commutative(d, q);
    if r + 1 < d {
        lemma_fundamental_div_mod_converse(y, d, q, r + 1);
    } else {
        lemma_mul_is_distributive_add(d, q, 1);
        lemma_mul_is_commutative(d, q + 1);
        lemma_fundamental_div_mod_converse(y, d, q + 1, 0);
    }
}

/// Divisibility by 400 implies divisibility by 100, which implies
/// divisibility by 4.
proof fn lemma_divisibility_chain(y: int)
    ensures
        y % 400 == 0 ==> y % 100 == 0,
        y % 100 == 0 ==> y % 4 == 0,
{
    if y % 400 == 0 {
        lemma_fundamental_div_mod(y, 400);
        lemma_fundamental_div_mod_converse(y, 100, 4 * (y / 400), 0);
    }
    if y % 100 == 0 {
        lemma_fundamental_div_mod(y, 100);
        lemma_fundamental_div_mod_converse(y, 4, 25 * (y / 100), 0);
    }
}

/// Each year starts right after the last day of the year before.
pub proof fn lemma_year_start_next(y: int)
    ensures
        year_start(y + 1) == year_start(y) + days_in_year(y),
{
    lemma_div_step(y, 4);
    lemma_div_step(y, 100);
    lemma_div_step(y, 400);
    lemma_divisibility_chain(y);
}

/// Day 0 is the first day of 1970, and the Gregorian calendar repeats
/// every 400 years, which hold 146097 days, a whole number of weeks.
pub proof fn lemma_gregorian_cycle(y: int)
    ensures
        year_start(1970) == 0,
        year_start(y + 400) == year_start(y) + 146097,
        weekday_index(year_start(y + 400)) == weekday_index(year_start(y)),
{
    assert((y + 399) / 4 == (y - 1) / 4 + 100);
    assert((y + 399) / 100 == (y - 1) / 100 + 4);
    assert((y + 399) / 400 == (y - 1) / 400 + 1);
}

/// Year starts grow by at least 365 and at most 366 days a year.
pub proof fn lemma_year_start_mono(a: int, b: int)
    requires
        a <= b,
    ensures
        year_start(a) + 365 * (b - a) <= year_start(b),
        year_start(b) <= year_start(a) + 366 * (b - a),
    decreases b - a,
{
    if a < b {
        lemma_year_start_mono(a, b - 1);
        lemma_year_start_next(b - 1);
    }
}

/// Months tile the year: the ordinal of a valid date is within the year.
pub proof fn lemma_ordinal_bounds(y: int, m: int, d: int)
    requires
        valid_ymd(y, m, d),
    ensures
        1 <= ordinal_of(y, m, d) <= days_in_year(y),
{
}

/// A valid date's day number falls within its own year.
pub proof fn lemma_days_within_year(y: int, m: int, d: int)
    requires
        valid_ymd(y, m, d),
    ensures
        year_start(y) <= days_from_civil(y, m, d) < year_start(y + 1),
{
    lemma_ordinal_bounds(y, m, d);
    lemma_year_start_next(y);
}

/// The year holding day number `n`.
pub open spec fn year_of_day(n: int) -> int {
    choose|y: int| #[trigger] year_start(y) <= n < year_start(y + 1)
}

/// The year holding a day number is the one whose span contains it.
pub proof fn lemma_year_of_day(n: int, y: int)
    requires
        year_start(y) <= n < year_start(y + 1),
    ensures
        year_of_day(n) == y,
{
    let z = year_of_day(n);
    assert(year_start(z) <= n < year_start(z + 1));
    if z < y {
        lemma_year_start_mono(z + 1, y);
    } else if y < z {
        lemma_year_start_mono(y + 1, z);
    }
}

/// The valid civil date whose day number is `n`.
pub open spec fn civil_from_days(n: int) -> (int, int, int) {
    choose|v: (int, int, int)| valid_ymd(v.0, v.1, v.2) && days_from_civil(v.0, v.1, v.2) == n
}

/// A valid date is the civil date of its own day number.
pub proof fn lemma_civil_from_days(y: int, m: int, d: int)
    requires
        valid_ymd(y, m, d),
    ensures
        civil_from_days(days_from_civil(y, m, d)) == (y, m, d),
{
    let n = days_from_civil(y, m, d);
    let w = (y, m, d);
    assert(valid_ymd(w.0, w.1, w.2) && days_from_civil(w.0, w.1, w.2) == n);
    let c = civil_from_days(n);
    lemma_days_from_civil_injective(c.0, c.1, c.2, y, m, d);
}

/// A day number between the starts of years `a` and `b` lies in one of the
/// years from `a` to `b - 1`.
pub proof fn lemma_year_containing(n: int, a: int, b: int) -> (y: int)
    requires
        a < b,
        year_start(a) <= n < year_start(b),
    ensures
        a <= y < b,
        year_start(y) <= n < year_start(y + 1),
    decreases b - a,
{
    if n < year_start(a + 1) {
        a
    } else {
        lemma_year_containing(n, a + 1, b)
    }
}

/// The month and day of the 0-based day `o` of a leap or common year.
pub proof fn lemma_month_day_of_ordinal0(leap: bool, o: int) -> (r: (int, int))
    requires
        0 <= o < (if leap {
            366int
        } else {
            365int
        }),
    ensures
        1 <= r.0 <= 12,
        1 <= r.1 <= month_length(leap, r.0),
        cumulative_days(leap, r.0) + r.1 - 1 == o,
{
    let l: int = if leap {
        1
    } else {
        0
    };
    if o < 31 {
        (1, o + 1)
    } else if o < 59 + l {
        (2, o - 30)
    } else if o < 90 + l {
        (3, o - 58 - l)
    } else if o < 120 + l {
        (4, o - 89 - l)
    } else if o < 151 + l {
        (5, o - 119 - l)
    } else if o < 181 + l {
        (6, o - 150 - l)
    } else if o < 212 + l {
        (7, o - 180 - l)
    } else if o < 243 + l {
        (8, o - 211 - l)
    } else if o < 273 + l {
        (9, o - 242 - l)
    } else if o < 304 + l {
        (10, o - 272 - l)
    } else if o < 334 + l {
        (11, o - 303 - l)
    } else {
        (12, o - 333 - l)
    }
}

/// Every day number the calendar functions accept is that of a valid date,
/// which `civil_from_days` gives back.
pub proof fn lemma_day_has_date(n: int)
    requires
        min_day_number() <= n < max_day_number(),
    ensures
        valid_ymd(civil_from_days(n).0, civil_from_days(n).1, civil_from_days(n).2),
        days_from_civil(civil_from_days(n).0, civil_from_days(n).1, civil_from_days(n).2) == n,
{
    let y = lemma_year_containing(n, MIN_YEAR - 1, MAX_YEAR + 2);
    lemma_year_start_next(y);
    let o = n - year_start(y);
    let md = lemma_month_day_of_ordinal0(is_leap_year(y), o);
    let w = (y, md.0, md.1);
    assert(valid_ymd(w.0, w.1, w.2) && days_from_civil(w.0, w.1, w.2) == n);
}

/// Two valid dates with the same day number are the same date.
pub proof fn lemma_days_from_civil_injective(y1: int, m1: int, d1: int, y2: int, m2: int, d2: int)
    requires
        valid_ymd(y1, m1, d1),
        valid_ymd(y2, m2, d2),
        days_from_civil(y1, m1, d1) == days_from_civil(y2, m2, d2),
    ensures
        y1 == y2 && m1 == m2 && d1 == d2,
{
    lemma_ordinal_bounds(y1, m1, d1);
    lemma_ordinal_bounds(y2, m2, d2);
    if y1 < y2 {
        lemma_year_start_mono(y1 + 1, y2);
        lemma_year_start_next(y1);
        assert(false);
    } else if y2 < y1 {
        lemma_year_start_mono(y2 + 1, y1);
        lemma_year_start_next(y2);
        assert(false);
    }
    assert(y1 == y2);
    if m1 < m2 {
        assert(cumulative_days(is_leap_year(y1), m1) + month_length(is_leap_year(y1), m1)
            <= cumulative_days(is_leap_year(y1), m2));
    } else if m2 < m1 {
        assert(cumulative_days(is_leap_year(y1), m2) + month_length(is_leap_year(y1), m2)
            <= cumulative_days(is_leap_year(y1), m1));
    }
}

/// Whether `y` is a leap year.
pub fn is_leap(y: i32) -> (r: bool)
    ensures
        r == is_leap_year(y as int),
{
    y % 4 == 0 && (y % 100 != 0 || y % 400 == 0)
}

/// Number of days in month `m` (1 to 12) of a leap or common year.
pub fn month_length_of(leap: bool, m: u32) -> (r: u32)
    requires
        1 <= m <= 12,
    ensures
        r == month_length(leap, m as int),
{
    if m == 2 {
        if leap {
            29
        } else {
            28
        }
    } else if m == 4 || m == 6 || m == 9 || m == 11 {
        30
    } else {
        31
    }
}

/// Number of days of a year before the first of month `m` (1 to 12).
pub fn cumulative_days_of(leap: bool, m: u32) -> (r: u32)
    requires
        1 <= m <= 12,
    ensures
        r == cumulative_days(leap, m as int),
        r <= 335,
{
    let base: u32 = if m == 1 {
        0
    } else if m == 2 {
        31
    } else if m == 3 {
        59
    } else if m == 4 {
        90
    } else if m == 5 {
        120
    } else if m == 6 {
        151
    } else if m == 7 {
        181
    } else if m == 8 {
        212
    } else if m == 9 {
        243
    } else if m == 10 {
        273
    } else if m == 11 {
        304
    } else {
        334
    };
    if leap && m > 2 {
        base + 1
    } else {
        base
    }
}

/// Day number of January 1st of year `y`.
pub fn year_start_of(y: i32) -> (r: i64)
    requires
        MIN_YEAR - 1 <= y <= MAX_YEAR + 2,
    ensures
        r == year_start(y as int),
{
    let shifted: i64 = y as i64 - 1 + 280000;
    assert((y - 1) / 4 == shifted / 4 - 70000);
    assert((y - 1) / 100 == shifted / 100 - 2800);
    assert((y - 1) / 400 == shifted / 400 - 700);
    let leaps: i64 = shifted / 4 - shifted / 100 + shifted / 400 - 67900;
    365 * (y as i64 - 1970) + leaps - 477
}

/// Month and day of the month for a 0-based day of the year.
pub fn month_day_from_ordinal0(leap: bool, o: u32) -> (r: (u32, u32))
    requires
        o < (if leap {
            366int
        } else {
            365int
        }),
    ensures
        1 <= r.0 <= 12,
        1 <= r.1 <= month_length(leap, r.0 as int),
        cumulative_days(leap, r.0 as int) + r.1 - 1 == o,
{
    let l: u32 = if leap {
        1
    } else {
        0
    };
    if o < 31 {
        (1, o + 1)
    } else if o < 59 + l {
        (2, o - 30)
    } else if o < 90 + l {
        (3, o - 58 - l)
    } else if o < 120 + l {
        (4, o - 89 - l)
    } else if o < 151 + l {
        (5, o - 119 - l)
    } else if o < 181 + l {
        (6, o - 150 - l)
    } else if o < 212 + l {
        (7, o - 180 - l)
    } else if o < 243 + l {
        (8, o - 211 - l)
    } else if o < 273 + l {
        (9, o - 242 - l)
    } else if o < 304 + l {
        (10, o - 272 - l)
    } else if o < 334 + l {
        (11, o - 303 - l)
    } else {
        (12, o - 333 - l)
    }
}

/// Day number of a valid civil date.
pub fn days_from_ymd(y: i32, m: u32, d: u32) -> (r: i64)
    requires
        MIN_YEAR - 1 <= y <= MAX_YEAR + 1,
        valid_ymd(y as int, m as int, d as int),
    ensures
        r == days_from_civil(y as int, m as int, d as int),
        min_day_number() <= r < max_day_number(),
{
    let start = year_start_of(y);
    let before = cumulative_days_of(is_leap(y), m);
    proof {
        lemma_ordinal_bounds(y as int, m as int, d as int);
        lemma_year_start_mono(MIN_YEAR - 1, y as int);
        lemma_year_start_mono(y as int + 1, MAX_YEAR + 2);
        lemma_year_start_next(y as int);
    }
    start + before as i64 + d as i64 - 1
}

/// A first guess of the year holding day number `n`, kept within the
/// accepted years.
fn estimate_year(n: i64) -> (r: i32)
    requires
        min_day_number() <= n < max_day_number(),
    ensures
        MIN_YEAR - 1 <= r <= MAX_YEAR + 1,
{
    proof {
        lemma_year_start_mono(MIN_YEAR - 1, 1970);
        lemma_year_start_mono(1970, MAX_YEAR + 2);
    }
    // 700 cycles of 400 years make the dividend non-negative.
    let shifted: i64 = n + 102_267_900;
    let guess: i64 = shifted / 146097 * 400 + shifted % 146097 * 400 / 146097 + 1970 - 280000;
    if guess < MIN_YEAR as i64 - 1 {
        MIN_YEAR - 1
    } else if guess > MAX_YEAR as i64 + 1 {
        MAX_YEAR + 1
    } else {
        guess as i32
    }
}

/// The valid civil date whose day number is `n`.
pub fn ymd_from_days(n: i64) -> (r: (i32, u32, u32))
    requires
        min_day_number() <= n < max_day_number(),
    ensures
        MIN_YEAR - 1 <= r.0 <= MAX_YEAR + 1,
        valid_ymd(r.0 as int, r.1 as int, r.2 as int),
        days_from_civil(r.0 as int, r.1 as int, r.2 as int) == n,
{
    let mut y = estimate_year(n);
    while year_start_of(y) > n
        invariant
            MIN_YEAR - 1 <= y <= MAX_YEAR + 1,
            min_day_number() <= n < max_day_number(),
        decreases y - (MIN_YEAR - 1),
    {
        proof {
            if y <= MIN_YEAR - 1 {
                lemma_year_start_mono(y as int, MIN_YEAR - 1);
            }
        }
        y = y - 1;
    }
    while year_start_of(y + 1) <= n
        invariant
            MIN_YEAR - 1 <= y <= MAX_YEAR + 1,
            min_day_number() <= n < max_day_number(),
            year_start(y as int) <= n,
        decreases MAX_YEAR + 1 - y,
    {
        proof {
            if y + 1 >= MAX_YEAR + 2 {
                lemma_year_start_mono(MAX_YEAR + 2, y + 1);
            }
        }
        y = y + 1;
    }
    let leap = is_leap(y);
    proof {
        lemma_year_start_next(y as int);
    }
    let o = (n - year_start_of(y)) as u32;
    let (m, d) = month_day_from_ordinal0(leap, o);
    (y, m, d)
}

/// Day of the week of day number `n`, from Monday (0) to Sunday (6).
pub fn weekday_of_days(n: i64) -> (r: u32)
    requires
        min_day_number() <= n < max_day_number(),
    ensures
        r == weekday_index(n as int),
        r < 7,
{
    proof {
        lemma_year_start_mono(MIN_YEAR - 1, 1970);
    }
    // A whole number of weeks makes the dividend non-negative.
    let shifted: i64 = n + 3 + 7 * 20_000_000;
    assert(shifted % 7 == (n + 3) % 7);
    (shifted % 7) as u32
}

} // verus!
