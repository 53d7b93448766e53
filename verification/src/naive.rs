//! Dates, times of day and date-times without a time zone.
//!
//! A `NaiveDateTime` is viewed as a pair `(s, f)`: `s` whole seconds since
//! 1970-01-01 00:00:00 and a fraction `f` in nanoseconds. The fraction may
//! reach up to two seconds, the second one standing for a leap second.
use vstd::prelude::*;
use crate::calendar::{
    MIN_YEAR, MAX_YEAR, is_leap_year, days_in_year, valid_ymd, year_in_range, year_start,
    ordinal_of, days_from_civil, weekday_index, year_of_day, min_day_number, max_day_number,
    month_length, lemma_year_start_mono, lemma_year_start_next,
    lemma_days_within_year, lemma_year_of_day, lemma_ordinal_bounds, civil_from_days,
    lemma_civil_from_days, is_leap, month_length_of, lemma_year_containing,
    cumulative_days_of, year_start_of, month_day_from_ordinal0, days_from_ymd, ymd_from_days,
    weekday_of_days, lemma_day_has_date,
};
use crate::duration::{Duration, div_mod_floor};

verus! {

/// A day of the week.
#[derive(Clone, Copy, Debug, PartialEq, Eq, Structural)]
pub enum Weekday {
    Mon,
    Tue,
    Wed,
    Thu,
    Fri,
    Sat,
    Sun,
}

/// The day of the week `i` days after Monday, for `0 <= i < 7`.
pub open spec fn weekday_from_index(i: int) -> Weekday {
    if i == 0 {
        Weekday::Mon
    } else if i == 1 {
        Weekday::Tue
    } else if i == 2 {
        Weekday::Wed
    } else if i == 3 {
        Weekday::Thu
    } else if i == 4 {
        Weekday::Fri
    } else if i == 5 {
        Weekday::Sat
    } else {
        Weekday::Sun
    }
}

impl Weekday {
    /// Days from Monday to this day.
    pub open spec fn index(self) -> int {
        match self {
            Weekday::Mon => 0,
            Weekday::Tue => 1,
            Weekday::Wed => 2,
            Weekday::Thu => 3,
            Weekday::Fri => 4,
            Weekday::Sat => 5,
            Weekday::Sun => 6,
        }
    }

    /// The day of the week `i` days after Monday.
    pub fn from_index(i: u32) -> (r: Weekday)
        requires
            i < 7,
        ensures
            r == weekday_from_index(i as int),
            r.index() == i,
    {
        if i == 0 {
            Weekday::Mon
        } else if i == 1 {
            Weekday::Tue
        } else if i == 2 {
            Weekday::Wed
        } else if i == 3 {
            Weekday::Thu
        } else if i == 4 {
            Weekday::Fri
        } else if i == 5 {
            Weekday::Sat
        } else {
            Weekday::Sun
        }
    }

    /// Days from Monday to this day (Monday is 0).
    pub fn num_days_from_monday(&self) -> (r: u32)
        ensures
            r == self.index(),
    {
        match self {
            Weekday::Mon => 0,
            Weekday::Tue => 1,
            Weekday::Wed => 2,
            Weekday::Thu => 3,
            Weekday::Fri => 4,
            Weekday::Sat => 5,
            Weekday::Sun => 6,
        }
    }

    /// Days from Sunday to this day (Sunday is 0).
    pub fn num_days_from_sunday(&self) -> (r: u32)
        ensures
            r == (self.index() + 1) % 7,
    {
        let i = self.num_days_from_monday();
        if i == 6 {
            0
        } else {
            i + 1
        }
    }

    /// The next day of the week.
    pub fn succ(&self) -> (r: Weekday)
        ensures
            r.index() == (self.index() + 1) % 7,
    {
        let i = self.num_days_from_monday();
        Weekday::from_index(if i == 6 {
            0
        } else {
            i + 1
        })
    }

    /// The previous day of the week.
    pub fn pred(&self) -> (r: Weekday)
        ensures
            r.index() == (self.index() + 6) % 7,
    {
        let i = self.num_days_from_monday();
        Weekday::from_index(if i == 0 {
            6
        } else {
            i - 1
        })
    }
}

/// Whether `(year, month, day)` is a date that can be held.
pub open spec fn date_valid(v: (int, int, int)) -> bool {
    year_in_range(v.0) && valid_ymd(v.0, v.1, v.2)
}

/// Day number of a date (1970-01-01 is day 0).
pub open spec fn date_days(v: (int, int, int)) -> int {
    days_from_civil(v.0, v.1, v.2)
}

/// Day number of the earliest date that can be held.
pub open spec fn min_date_days() -> int {
    year_start(MIN_YEAR as int)
}

/// One past the day number of the latest date that can be held.
pub open spec fn max_date_days() -> int {
    year_start(MAX_YEAR + 1)
}

/// The ISO week of day `n` is the Monday-to-Sunday week holding it; this is
/// the Thursday of that week.
pub open spec fn iso_thursday(n: int) -> int {
    n - weekday_index(n) + 3
}

/// ISO year of day `n`: the year holding the Thursday of its week.
pub open spec fn iso_year(n: int) -> int {
    year_of_day(iso_thursday(n))
}

/// ISO week number of day `n` within its ISO year.
pub open spec fn iso_week(n: int) -> int {
    (iso_thursday(n) - year_start(iso_year(n))) / 7 + 1
}

/// Day number of the first Thursday of year `y`.
pub open spec fn first_thursday(y: int) -> int {
    year_start(y) + (3 - weekday_index(year_start(y)) + 7) % 7
}

/// The day number of the day `wd` days after Monday in week `w` of the
/// ISO 8601 year `y`.
pub open spec fn isoywd_day(y: int, w: int, wd: int) -> int {
    first_thursday(y) - 3 + 7 * (w - 1) + wd
}

/// Whether day number `n` is that of a date that can be held.
pub open spec fn day_held(n: int) -> bool {
    min_date_days() <= n < max_date_days()
}

/// The first Thursday of a year is a Thursday within the year's first
/// seven days.
proof fn lemma_first_thursday(y: int)
    ensures
        year_start(y) <= first_thursday(y) < year_start(y) + 7,
        weekday_index(first_thursday(y)) == 3,
{
}

/// The day that an ISO 8601 year, week and day of the week name has that
/// year, week and day of the week as its ISO 8601 week date.
pub proof fn lemma_isoywd_reads_back(y: int, w: int, wd: int)
    requires
        1 <= w,
        first_thursday(y) + 7 * (w - 1) < year_start(y + 1),
        0 <= wd < 7,
    ensures
        iso_year(isoywd_day(y, w, wd)) == y,
        iso_week(isoywd_day(y, w, wd)) == w,
        weekday_index(isoywd_day(y, w, wd)) == wd,
{
    lemma_first_thursday(y);
    let n = isoywd_day(y, w, wd);
    let th = first_thursday(y) + 7 * (w - 1);
    lemma_day_in_week(n, th, year_start(y), first_thursday(y), w, wd);
    lemma_year_of_day(th, y);
}

/// Day arithmetic behind `lemma_isoywd_reads_back`: the day `wd` days after
/// the Monday of week `w`, counted from a Thursday `ft` within seven days
/// of `s`, has `wd` as its day of the week, `th` as its Thursday, and lies
/// in week `w` counted from `s`.
proof fn lemma_day_in_week(n: int, th: int, s: int, ft: int, w: int, wd: int)
    requires
        s <= ft < s + 7,
        weekday_index(ft) == 3,
        1 <= w,
        0 <= wd < 7,
        th == ft + 7 * (w - 1),
        n == ft - 3 + 7 * (w - 1) + wd,
    ensures
        weekday_index(n) == wd,
        iso_thursday(n) == th,
        (th - s) / 7 + 1 == w,
{
}

/// Every day that can be held is named by its own ISO 8601 week date: its
/// week is a week of its ISO 8601 year, and the year, week and day of the
/// week give the day back.
pub proof fn lemma_isoweekdate_names_day(n: int)
    requires
        day_held(n),
    ensures
        1 <= iso_week(n),
        first_thursday(iso_year(n)) + 7 * (iso_week(n) - 1) < year_start(iso_year(n) + 1),
        isoywd_day(iso_year(n), iso_week(n), weekday_index(n)) == n,
{
    lemma_date_days_range();
    let th = iso_thursday(n);
    let y = lemma_year_containing(th, MIN_YEAR - 1, MAX_YEAR + 2);
    lemma_year_of_day(th, y);
    lemma_first_thursday(y);
    lemma_week_of_thursday(n, th, year_start(y), first_thursday(y));
}

/// Day arithmetic behind `lemma_isoweekdate_names_day`: the Thursday `th`
/// of the week of day `n` is a whole number of weeks after the Thursday
/// `ft` of the week from `s`.
proof fn lemma_week_of_thursday(n: int, th: int, s: int, ft: int)
    requires
        th == n - weekday_index(n) + 3,
        s <= ft < s + 7,
        weekday_index(ft) == 3,
        s <= th,
    ensures
        ft + 7 * ((th - s) / 7) == th,
{
    assert(weekday_index(th) == 3);
    assert((th - ft) % 7 == 0);
    let k = (th - ft) / 7;
    assert(th == ft + 7 * k);
    assert(k >= 0);
    assert((th - s) / 7 == k);
}

/// The day numbers of held dates are a contiguous range, within the range
/// the calendar functions accept.
pub proof fn lemma_date_days_range()
    ensures
        min_day_number() + 365 <= min_date_days(),
        max_date_days() + 365 <= max_day_number(),
        min_date_days() < 0 < max_date_days(),
{
    lemma_year_start_mono(MIN_YEAR - 1, MIN_YEAR as int);
    lemma_year_start_mono(MAX_YEAR + 1, MAX_YEAR + 2);
    lemma_year_start_mono(MIN_YEAR as int, 1970);
    lemma_year_start_mono(1970, MAX_YEAR + 1);
}

/// A valid date is held exactly when its day number is in range.
pub proof fn lemma_date_days_in_range(v: (int, int, int))
    requires
        valid_ymd(v.0, v.1, v.2),
    ensures
        year_in_range(v.0) <==> min_date_days() <= date_days(v) < max_date_days(),
{
    lemma_days_within_year(v.0, v.1, v.2);
    if v.0 < MIN_YEAR {
        lemma_year_start_mono(v.0 + 1, MIN_YEAR as int);
    }
    if v.0 > MAX_YEAR {
        lemma_year_start_mono(MAX_YEAR + 1, v.0);
    }
    if year_in_range(v.0) {
        lemma_year_start_mono(MIN_YEAR as int, v.0);
        lemma_year_start_mono(v.0 + 1, MAX_YEAR + 1);
    }
}

/// A calendar date.
#[derive(Clone, Copy, Debug, PartialEq, Eq, Structural)]
pub struct NaiveDate {
    year: i32,
    month: u32,
    day: u32,
}

impl View for NaiveDate {
    type V = (int, int, int);

    closed spec fn view(&self) -> (int, int, int) {
        (self.year as int, self.month as int, self.day as int)
    }
}

impl NaiveDate {
    #[verifier::type_invariant]
    pub closed spec fn inv(self) -> bool {
        date_valid(self@)
    }

    /// What every `NaiveDate` satisfies.
    pub proof fn lemma_inv(self)
        requires
            self.inv(),
        ensures
            date_valid(self@),
            min_date_days() <= date_days(self@) < max_date_days(),
    {
        lemma_date_days_in_range(self@);
    }

    /// The date `(year, month, day)`, if it exists and can be held.
    pub fn from_ymd_opt(year: i32, month: u32, day: u32) -> (r: Option<NaiveDate>)
        ensures
            r is Some <==> date_valid((year as int, month as int, day as int)),
            r matches Some(v) ==> v@ == (year as int, month as int, day as int),
    {
        if year < MIN_YEAR || year > MAX_YEAR || month < 1 || month > 12 || day < 1 {
            return None;
        }
        if day > month_length_of(is_leap(year), month) {
            return None;
        }
        Some(NaiveDate { year, month, day })
    }

    /// The date `(year, month, day)`, which must exist and be held.
    pub fn from_ymd(year: i32, month: u32, day: u32) -> (r: NaiveDate)
        requires
            date_valid((year as int, month as int, day as int)),
        ensures
            r@ == (year as int, month as int, day as int),
    {
        NaiveDate { year, month, day }
    }

    /// The date with 1-based day of the year `ordinal` in `year`, if it exists.
    pub fn from_yo_opt(year: i32, ordinal: u32) -> (r: Option<NaiveDate>)
        ensures
            r is Some <==> year_in_range(year as int) && 1 <= ordinal <= days_in_year(
                year as int,
            ),
            r matches Some(v) ==> v@.0 == year && ordinal_of(v@.0, v@.1, v@.2) == ordinal,
    {
        if year < MIN_YEAR || year > MAX_YEAR || ordinal < 1 {
            return None;
        }
        let leap = is_leap(year);
        let len: u32 = if leap {
            366
        } else {
            365
        };
        if ordinal > len {
            return None;
        }
        let (m, d) = month_day_from_ordinal0(leap, ordinal - 1);
        Some(NaiveDate { year, month: m, day: d })
    }

    /// The date with day number `n` (1970-01-01 is day 0), if it can be held.
    pub fn from_num_days(n: i64) -> (r: Option<NaiveDate>)
        ensures
            r is Some <==> min_date_days() <= n < max_date_days(),
            r matches Some(v) ==> date_days(v@) == n,
    {
        let lo = year_start_of(MIN_YEAR);
        let hi = year_start_of(MAX_YEAR + 1);
        if n < lo || n >= hi {
            return None;
        }
        proof {
            lemma_date_days_range();
        }
        let (y, m, d) = ymd_from_days(n);
        proof {
            lemma_date_days_in_range((y as int, m as int, d as int));
        }
        Some(NaiveDate { year: y, month: m, day: d })
    }

    /// Day number of this date (1970-01-01 is day 0).
    pub fn num_days(&self) -> (r: i64)
        ensures
            r == date_days(self@),
            min_date_days() <= r < max_date_days(),
    {
        proof {
            use_type_invariant(self);
            self.lemma_inv();
        }
        days_from_ymd(self.year, self.month, self.day)
    }

    /// The year.
    pub fn year(&self) -> (r: i32)
        ensures
            r == self@.0,
            year_in_range(r as int),
    {
        proof {
            use_type_invariant(self);
        }
        self.year
    }

    /// The month, from 1 to 12.
    pub fn month(&self) -> (r: u32)
        ensures
            r == self@.1,
            1 <= r <= 12,
    {
        proof {
            use_type_invariant(self);
        }
        self.month
    }

    /// The month, from 0 to 11.
    pub fn month0(&self) -> (r: u32)
        ensures
            r == self@.1 - 1,
    {
        proof {
            use_type_invariant(self);
        }
        self.month - 1
    }

    /// The day of the month, from 1.
    pub fn day(&self) -> (r: u32)
        ensures
            r == self@.2,
            1 <= r <= days_in_month_of(self@),
    {
        proof {
            use_type_invariant(self);
        }
        self.day
    }

    /// The day of the month, from 0.
    pub fn day0(&self) -> (r: u32)
        ensures
            r == self@.2 - 1,
    {
        proof {
            use_type_invariant(self);
        }
        self.day - 1
    }

    /// The day of the year, from 1.
    pub fn ordinal(&self) -> (r: u32)
        ensures
            r == ordinal_of(self@.0, self@.1, self@.2),
            1 <= r <= days_in_year(self@.0),
    {
        proof {
            use_type_invariant(self);
            lemma_ordinal_bounds(self@.0, self@.1, self@.2);
        }
        cumulative_days_of(is_leap(self.year), self.month) + self.day
    }

    /// The day of the year, from 0.
    pub fn ordinal0(&self) -> (r: u32)
        ensures
            r == ordinal_of(self@.0, self@.1, self@.2) - 1,
    {
        self.ordinal() - 1
    }

    /// The day of the week.
    pub fn weekday(&self) -> (r: Weekday)
        ensures
            r == weekday_from_index(weekday_index(date_days(self@))),
    {
        let n = self.num_days();
        proof {
            lemma_date_days_range();
        }
        Weekday::from_index(weekday_of_days(n))
    }

    /// ISO 8601 year, week number and day of the week.
    pub fn isoweekdate(&self) -> (r: (i32, u32, Weekday))
        ensures
            r.0 == iso_year(date_days(self@)),
            r.1 == iso_week(date_days(self@)),
            r.2 == weekday_from_index(weekday_index(date_days(self@))),
            1 <= r.1 <= 53,
    {
        let n = self.num_days();
        proof {
            lemma_date_days_range();
        }
        let wd = weekday_of_days(n);
        let th: i64 = n - wd as i64 + 3;
        let (y, m, d) = ymd_from_days(th);
        proof {
            lemma_days_within_year(y as int, m as int, d as int);
            lemma_year_of_day(th as int, y as int);
            lemma_year_start_next(y as int);
        }
        let start = year_start_of(y);
        let week = ((th - start) / 7 + 1) as u32;
        (y, week, Weekday::from_index(wd))
    }

    /// The date of day `weekday` in ISO 8601 week `week` of `year`, if that
    /// week exists in the year and the date can be held.
    pub fn from_isoywd_opt(year: i32, week: u32, weekday: Weekday) -> (r: Option<NaiveDate>)
        ensures
            r is Some <==> 1 <= week && first_thursday(year as int) + 7 * (week - 1) < year_start(
                year + 1,
            ) && day_held(isoywd_day(year as int, week as int, weekday.index())),
            r matches Some(d) ==> date_days(d@) == isoywd_day(
                year as int,
                week as int,
                weekday.index(),
            ),
    {
        proof {
            lemma_year_start_mono(MIN_YEAR - 1, MIN_YEAR as int);
            lemma_year_start_mono(MAX_YEAR + 1, MAX_YEAR + 2);
            lemma_year_start_next(year as int);
        }
        if year < MIN_YEAR - 1 || year > MAX_YEAR + 1 {
            proof {
                if year < MIN_YEAR - 1 {
                    lemma_year_start_mono(year + 1, MIN_YEAR - 1);
                } else {
                    lemma_year_start_mono(MAX_YEAR + 2, year as int);
                }
            }
            return None;
        }
        if week < 1 || week > 53 {
            return None;
        }
        proof {
            lemma_year_start_mono(MIN_YEAR - 1, year as int);
            lemma_year_start_mono(year as int, MAX_YEAR + 2);
        }
        let start = year_start_of(year);
        let next = year_start_of(year + 1);
        let jan1 = weekday_of_days(start);
        let thursday: i64 = start + ((3 + 7 - jan1 as i64) % 7);
        let in_week: i64 = thursday + 7 * (week as i64 - 1);
        if in_week >= next {
            return None;
        }
        let n: i64 = in_week - 3 + weekday.num_days_from_monday() as i64;
        NaiveDate::from_num_days(n)
    }

    /// The same month and day in `year`, if that date exists and is held.
    pub fn with_year(&self, year: i32) -> (r: Option<NaiveDate>)
        ensures
            r is Some <==> date_valid((year as int, self@.1, self@.2)),
            r matches Some(v) ==> v@ == (year as int, self@.1, self@.2),
    {
        NaiveDate::from_ymd_opt(year, self.month, self.day)
    }

    /// The same year and day in `month` (1 to 12), if that date exists.
    pub fn with_month(&self, month: u32) -> (r: Option<NaiveDate>)
        ensures
            r is Some <==> date_valid((self@.0, month as int, self@.2)),
            r matches Some(v) ==> v@ == (self@.0, month as int, self@.2),
    {
        NaiveDate::from_ymd_opt(self.year, month, self.day)
    }

    /// The same year and day in `month0` (0 to 11), if that date exists.
    pub fn with_month0(&self, month0: u32) -> (r: Option<NaiveDate>)
        ensures
            r is Some <==> date_valid((self@.0, month0 + 1, self@.2)),
            r matches Some(v) ==> v@ == (self@.0, month0 + 1, self@.2),
    {
        if month0 >= 12 {
            return None;
        }
        NaiveDate::from_ymd_opt(self.year, month0 + 1, self.day)
    }

    /// The same year and month on `day` (from 1), if that date exists.
    pub fn with_day(&self, day: u32) -> (r: Option<NaiveDate>)
        ensures
            r is Some <==> date_valid((self@.0, self@.1, day as int)),
            r matches Some(v) ==> v@ == (self@.0, self@.1, day as int),
    {
        NaiveDate::from_ymd_opt(self.year, self.month, day)
    }

    /// The same year and month on `day0` (from 0), if that date exists.
    pub fn with_day0(&self, day0: u32) -> (r: Option<NaiveDate>)
        ensures
            r is Some <==> date_valid((self@.0, self@.1, day0 + 1)),
            r matches Some(v) ==> v@ == (self@.0, self@.1, day0 + 1),
    {
        if day0 >= 31 {
            return None;
        }
        NaiveDate::from_ymd_opt(self.year, self.month, day0 + 1)
    }

    /// The day of the same year with day of the year `ordinal` (from 1), if it exists.
    pub fn with_ordinal(&self, ordinal: u32) -> (r: Option<NaiveDate>)
        ensures
            r is Some <==> 1 <= ordinal <= days_in_year(self@.0),
            r matches Some(v) ==> v@.0 == self@.0 && ordinal_of(v@.0, v@.1, v@.2) == ordinal,
    {
        proof {
            use_type_invariant(self);
        }
        NaiveDate::from_yo_opt(self.year, ordinal)
    }

    /// The day of the same year with day of the year `ordinal0` (from 0), if it exists.
    pub fn with_ordinal0(&self, ordinal0: u32) -> (r: Option<NaiveDate>)
        ensures
            r is Some <==> ordinal0 + 1 <= days_in_year(self@.0),
            r matches Some(v) ==> v@.0 == self@.0 && ordinal_of(v@.0, v@.1, v@.2) == ordinal0
                + 1,
    {
        if ordinal0 >= 366 {
            return None;
        }
        self.with_ordinal(ordinal0 + 1)
    }

    /// This date at the given time of day.
    pub fn and_time(&self, time: NaiveTime) -> (r: NaiveDateTime)
        ensures
            r@ == (date_days(self@) * 86400 + time@.0, time@.1),
    {
        NaiveDateTime::new(*self, time)
    }

    /// This date at `hour:min:sec`, if that time is valid.
    pub fn and_hms_opt(&self, hour: u32, min: u32, sec: u32) -> (r: Option<NaiveDateTime>)
        ensures
            r is Some <==> hour < 24 && min < 60 && sec < 60,
            r matches Some(v) ==> v@ == (date_days(self@) * 86400 + hms_secs(hour, min, sec), 0int),
    {
        match NaiveTime::from_hms_opt(hour, min, sec) {
            Some(t) => Some(self.and_time(t)),
            None => None,
        }
    }

    /// This date at `hour:min:sec` and `milli` milliseconds (up to 1999 for a
    /// leap second), if that time is valid.
    pub fn and_hms_milli_opt(&self, hour: u32, min: u32, sec: u32, milli: u32) -> (r: Option<
        NaiveDateTime,
    >)
        ensures
            r is Some <==> hour < 24 && min < 60 && sec < 60 && milli < 2000,
            r matches Some(v) ==> v@ == (
                date_days(self@) * 86400 + hms_secs(hour, min, sec),
                milli * 1_000_000,
            ),
    {
        match NaiveTime::from_hms_milli_opt(hour, min, sec, milli) {
            Some(t) => Some(self.and_time(t)),
            None => None,
        }
    }

    /// This date at `hour:min:sec` and `micro` microseconds (up to 1999999 for
    /// a leap second), if that time is valid.
    pub fn and_hms_micro_opt(&self, hour: u32, min: u32, sec: u32, micro: u32) -> (r: Option<
        NaiveDateTime,
    >)
        ensures
            r is Some <==> hour < 24 && min < 60 && sec < 60 && micro < 2_000_000,
            r matches Some(v) ==> v@ == (
                date_days(self@) * 86400 + hms_secs(hour, min, sec),
                micro * 1_000,
            ),
    {
        match NaiveTime::from_hms_micro_opt(hour, min, sec, micro) {
            Some(t) => Some(self.and_time(t)),
            None => None,
        }
    }

    /// This date at `hour:min:sec` and `nano` nanoseconds (up to 1999999999
    /// for a leap second), if that time is valid.
    pub fn and_hms_nano_opt(&self, hour: u32, min: u32, sec: u32, nano: u32) -> (r: Option<
        NaiveDateTime,
    >)
        ensures
            r is Some <==> hour < 24 && min < 60 && sec < 60 && nano < 2_000_000_000,
            r matches Some(v) ==> v@ == (
                date_days(self@) * 86400 + hms_secs(hour, min, sec),
                nano as int,
            ),
    {
        match NaiveTime::from_hms_nano_opt(hour, min, sec, nano) {
            Some(t) => Some(self.and_time(t)),
            None => None,
        }
    }
}

/// Number of days in the month of a date.
pub open spec fn days_in_month_of(v: (int, int, int)) -> int {
    month_length(is_leap_year(v.0), v.1)
}

/// Seconds from midnight to `hour:min:sec`.
pub open spec fn hms_secs(hour: u32, min: u32, sec: u32) -> int {
    hour * 3600 + min * 60 + sec
}

/// Whether `(s, f)` is a time of day: `s` seconds from midnight and a
/// fraction `f` in nanoseconds, a second or more of which marks a leap second.
pub open spec fn time_valid(v: (int, int)) -> bool {
    0 <= v.0 < 86400 && 0 <= v.1 < 2_000_000_000
}

/// A time of day with nanosecond precision, which may be a leap second.
#[derive(Clone, Copy, Debug, PartialEq, Eq, Structural)]
pub struct NaiveTime {
    secs: u32,
    frac: u32,
}

impl View for NaiveTime {
    type V = (int, int);

    closed spec fn view(&self) -> (int, int) {
        (self.secs as int, self.frac as int)
    }
}

impl NaiveTime {
    #[verifier::type_invariant]
    pub closed spec fn inv(self) -> bool {
        time_valid(self@)
    }

    /// What every `NaiveTime` satisfies.
    pub proof fn lemma_inv(self)
        requires
            self.inv(),
        ensures
            time_valid(self@),
    {
    }

    /// The time `secs` seconds after midnight with fraction `frac`, if valid.
    pub fn from_num_seconds_from_midnight_opt(secs: u32, frac: u32) -> (r: Option<NaiveTime>)
        ensures
            r is Some <==> time_valid((secs as int, frac as int)),
            r matches Some(t) ==> t@ == (secs as int, frac as int),
    {
        if secs >= 86400 || frac >= 2_000_000_000 {
            None
        } else {
            Some(NaiveTime { secs, frac })
        }
    }

    /// The time `hour:min:sec`, if valid.
    pub fn from_hms_opt(hour: u32, min: u32, sec: u32) -> (r: Option<NaiveTime>)
        ensures
            r is Some <==> hour < 24 && min < 60 && sec < 60,
            r matches Some(t) ==> t@ == (hms_secs(hour, min, sec), 0int),
    {
        NaiveTime::from_hms_nano_opt(hour, min, sec, 0)
    }

    /// The time `hour:min:sec`, which must be valid.
    pub fn from_hms(hour: u32, min: u32, sec: u32) -> (r: NaiveTime)
        requires
            hour < 24 && min < 60 && sec < 60,
        ensures
            r@ == (hms_secs(hour, min, sec), 0int),
    {
        NaiveTime { secs: hour * 3600 + min * 60 + sec, frac: 0 }
    }

    /// The time `hour:min:sec` and `milli` milliseconds, if valid.
    pub fn from_hms_milli_opt(hour: u32, min: u32, sec: u32, milli: u32) -> (r: Option<NaiveTime>)
        ensures
            r is Some <==> hour < 24 && min < 60 && sec < 60 && milli < 2000,
            r matches Some(t) ==> t@ == (hms_secs(hour, min, sec), milli * 1_000_000),
    {
        if milli >= 2000 {
            return None;
        }
        NaiveTime::from_hms_nano_opt(hour, min, sec, milli * 1_000_000)
    }

    /// The time `hour:min:sec` and `micro` microseconds, if valid.
    pub fn from_hms_micro_opt(hour: u32, min: u32, sec: u32, micro: u32) -> (r: Option<NaiveTime>)
        ensures
            r is Some <==> hour < 24 && min < 60 && sec < 60 && micro < 2_000_000,
            r matches Some(t) ==> t@ == (hms_secs(hour, min, sec), micro * 1_000),
    {
        if micro >= 2_000_000 {
            return None;
        }
        NaiveTime::from_hms_nano_opt(hour, min, sec, micro * 1_000)
    }

    /// The time `hour:min:sec` and `nano` nanoseconds, if valid.
    pub fn from_hms_nano_opt(hour: u32, min: u32, sec: u32, nano: u32) -> (r: Option<NaiveTime>)
        ensures
            r is Some <==> hour < 24 && min < 60 && sec < 60 && nano < 2_000_000_000,
            r matches Some(t) ==> t@ == (hms_secs(hour, min, sec), nano as int),
    {
        if hour >= 24 || min >= 60 || sec >= 60 || nano >= 2_000_000_000 {
            return None;
        }
        Some(NaiveTime { secs: hour * 3600 + min * 60 + sec, frac: nano })
    }

    /// Seconds from midnight.
    pub fn num_seconds_from_midnight(&self) -> (r: u32)
        ensures
            r == self@.0,
            r < 86400,
    {
        proof {
            use_type_invariant(self);
        }
        self.secs
    }

    /// The hour, from 0 to 23.
    pub fn hour(&self) -> (r: u32)
        ensures
            r == self@.0 / 3600,
            r < 24,
    {
        proof {
            use_type_invariant(self);
        }
        self.secs / 3600
    }

    /// The minute, from 0 to 59.
    pub fn minute(&self) -> (r: u32)
        ensures
            r == self@.0 / 60 % 60,
            r < 60,
    {
        self.secs / 60 % 60
    }

    /// The second, from 0 to 59 (a leap second shows in the fraction).
    pub fn second(&self) -> (r: u32)
        ensures
            r == self@.0 % 60,
            r < 60,
    {
        self.secs % 60
    }

    /// The fraction of the second in nanoseconds, up to 1999999999 during a
    /// leap second.
    pub fn nanosecond(&self) -> (r: u32)
        ensures
            r == self@.1,
            r < 2_000_000_000,
    {
        proof {
            use_type_invariant(self);
        }
        self.frac
    }

    /// The same minute, second and fraction in `hour`, if it is below 24.
    pub fn with_hour(&self, hour: u32) -> (r: Option<NaiveTime>)
        ensures
            r is Some <==> hour < 24,
            r matches Some(t) ==> t@ == (hour * 3600 + self@.0 % 3600, self@.1),
    {
        proof {
            use_type_invariant(self);
        }
        if hour >= 24 {
            return None;
        }
        Some(NaiveTime { secs: hour * 3600 + self.secs % 3600, frac: self.frac })
    }

    /// The same hour, second and fraction at `min`, if it is below 60.
    pub fn with_minute(&self, min: u32) -> (r: Option<NaiveTime>)
        ensures
            r is Some <==> min < 60,
            r matches Some(t) ==> t@ == (self@.0 / 3600 * 3600 + min * 60 + self@.0 % 60, self@.1),
    {
        proof {
            use_type_invariant(self);
        }
        if min >= 60 {
            return None;
        }
        Some(NaiveTime { secs: self.secs / 3600 * 3600 + min * 60 + self.secs % 60, frac: self.frac })
    }

    /// The same hour, minute and fraction at `sec`, if it is below 60.
    pub fn with_second(&self, sec: u32) -> (r: Option<NaiveTime>)
        ensures
            r is Some <==> sec < 60,
            r matches Some(t) ==> t@ == (self@.0 / 60 * 60 + sec, self@.1),
    {
        proof {
            use_type_invariant(self);
        }
        if sec >= 60 {
            return None;
        }
        Some(NaiveTime { secs: self.secs / 60 * 60 + sec, frac: self.frac })
    }

    /// The same hour, minute and second with fraction `nano`, if it is below
    /// two seconds.
    pub fn with_nanosecond(&self, nano: u32) -> (r: Option<NaiveTime>)
        ensures
            r is Some <==> nano < 2_000_000_000,
            r matches Some(t) ==> t@ == (self@.0, nano as int),
    {
        proof {
            use_type_invariant(self);
        }
        if nano >= 2_000_000_000 {
            return None;
        }
        Some(NaiveTime { secs: self.secs, frac: nano })
    }
}

/// Whether `s` seconds since the epoch fall on a date that can be held.
pub open spec fn secs_in_range(s: int) -> bool {
    min_date_days() * 86400 <= s < max_date_days() * 86400
}

/// Whether `(s, f)` is a date-time that can be held.
pub open spec fn datetime_valid(v: (int, int)) -> bool {
    secs_in_range(v.0) && 0 <= v.1 < 2_000_000_000
}

/// The fraction with a leap second folded into the second before it.
pub open spec fn leap_free(f: int) -> int {
    if f >= 1_000_000_000 {
        f - 1_000_000_000
    } else {
        f
    }
}

/// Nanoseconds since the epoch, counting a leap second as part of the
/// second before it.
pub open spec fn linear_nanos(v: (int, int)) -> int {
    v.0 * 1_000_000_000 + leap_free(v.1)
}

/// `v` moved by `d` nanoseconds. A leap second is kept as long as the move
/// stays within it; otherwise the result carries no leap second.
pub open spec fn add_nanos(v: (int, int), d: int) -> (int, int) {
    let n = d % 1_000_000_000;
    let s = d / 1_000_000_000;
    if v.1 >= 1_000_000_000 && v.1 - 1_000_000_000 + n < 1_000_000_000 {
        (v.0 + s, v.1 + n)
    } else {
        let l = linear_nanos(v) + d;
        (l / 1_000_000_000, l % 1_000_000_000)
    }
}

/// The date of the date-time `v`.
pub open spec fn date_of(v: (int, int)) -> (int, int, int) {
    civil_from_days(v.0 / 86400)
}

/// The time of day of the date-time `v`.
pub open spec fn time_of(v: (int, int)) -> (int, int) {
    (v.0 % 86400, v.1)
}

/// The date-time `v` moved to the date `d`, keeping its time of day.
pub open spec fn replace_date(v: (int, int), d: (int, int, int)) -> (int, int) {
    (date_days(d) * 86400 + v.0 % 86400, v.1)
}

/// The date-time `v` moved to the time of day `t`, keeping its date.
pub open spec fn replace_time(v: (int, int), t: (int, int)) -> (int, int) {
    (v.0 / 86400 * 86400 + t.0, t.1)
}

/// Moving a date-time by `d` nanoseconds moves its linear count of
/// nanoseconds by exactly `d`.
pub proof fn lemma_add_linear(v: (int, int), d: int)
    requires
        0 <= v.1 < 2_000_000_000,
    ensures
        linear_nanos(add_nanos(v, d)) == linear_nanos(v) + d,
        0 <= add_nanos(v, d).1 < 2_000_000_000,
{
    let n = d % 1_000_000_000;
    let s = d / 1_000_000_000;
    vstd::arithmetic::div_mod::lemma_fundamental_div_mod(d, 1_000_000_000);
    let l = linear_nanos(v) + d;
    vstd::arithmetic::div_mod::lemma_fundamental_div_mod(l, 1_000_000_000);
}

/// The date of a date-time that can be held is a valid date, whose day
/// number is that of the date-time.
pub proof fn lemma_date_of_valid(v: (int, int))
    requires
        datetime_valid(v),
    ensures
        date_valid(date_of(v)),
        date_days(date_of(v)) == v.0 / 86400,
        0 <= time_of(v).0 < 86400,
        v.0 == (v.0 / 86400) * 86400 + time_of(v).0,
{
    lemma_date_days_range();
    let n = v.0 / 86400;
    assert(min_date_days() <= n < max_date_days()) by (nonlinear_arith)
        requires
            min_date_days() * 86400 <= v.0 < max_date_days() * 86400,
            n == v.0 / 86400,
    ;
    lemma_day_has_date(n);
    let d = date_of(v);
    lemma_date_days_in_range(d);
}

/// Without a leap second, moving a date-time by `d` and then back by `d`
/// returns to where it started.
pub proof fn lemma_add_then_sub(v: (int, int), d: int)
    requires
        0 <= v.1 < 1_000_000_000,
    ensures
        add_nanos(add_nanos(v, d), -d) == v,
{
    lemma_add_linear(v, d);
    let w = add_nanos(v, d);
    let l = linear_nanos(v) + d;
    vstd::arithmetic::div_mod::lemma_fundamental_div_mod(l, 1_000_000_000);
    assert(w.1 < 1_000_000_000);
    lemma_add_linear(w, -d);
    vstd::arithmetic::div_mod::lemma_fundamental_div_mod_converse(
        linear_nanos(v),
        1_000_000_000,
        v.0,
        v.1,
    );
}

/// The view of an optional date-time.
pub open spec fn opt_view(r: Option<NaiveDateTime>) -> Option<(int, int)> {
    match r {
        Some(v) => Some(v@),
        None => None,
    }
}

/// The date-time `v` moved to the date `d`, if `d` is a date that can be held.
pub open spec fn date_change(v: (int, int), d: (int, int, int)) -> Option<(int, int)> {
    if date_valid(d) {
        Some(replace_date(v, d))
    } else {
        None
    }
}

/// The date-time `v` moved to the time of day `t`, if `ok`.
pub open spec fn time_change(v: (int, int), ok: bool, t: (int, int)) -> Option<(int, int)> {
    if ok {
        Some(replace_time(v, t))
    } else {
        None
    }
}

/// The date-time `v` moved to day of the year `o` of its year, if that day exists.
pub open spec fn ordinal_change(v: (int, int), o: int) -> Option<(int, int)> {
    let y = date_of(v).0;
    if 1 <= o <= days_in_year(y) {
        Some(replace_date(v, civil_from_days(year_start(y) + o - 1)))
    } else {
        None
    }
}

/// A date and a time of day, without a time zone.
#[derive(Clone, Copy, Debug, PartialEq, Eq, Structural)]
pub struct NaiveDateTime {
    date: NaiveDate,
    time: NaiveTime,
}

impl View for NaiveDateTime {
    type V = (int, int);

    closed spec fn view(&self) -> (int, int) {
        (date_days(self.date@) * 86400 + self.time@.0, self.time@.1)
    }
}

impl NaiveDateTime {
    #[verifier::type_invariant]
    pub closed spec fn inv(self) -> bool {
        self.date.inv() && self.time.inv()
    }

    /// What every `NaiveDateTime` satisfies.
    pub proof fn lemma_inv(self)
        requires
            self.inv(),
        ensures
            datetime_valid(self@),
    {
        self.date.lemma_inv();
    }

    /// Two date-times are equal exactly when their views are.
    pub proof fn lemma_view_injective(self, other: NaiveDateTime)
        requires
            self.inv(),
            other.inv(),
            self@ == other@,
        ensures
            self == other,
    {
        let a = self.date@;
        let b = other.date@;
        crate::calendar::lemma_days_from_civil_injective(a.0, a.1, a.2, b.0, b.1, b.2);
    }

    /// The date-time whose view is `v`, for a `v` that can be held.
    pub closed spec fn with_view(v: (int, int)) -> NaiveDateTime {
        NaiveDateTime {
            date: NaiveDate {
                year: date_of(v).0 as i32,
                month: date_of(v).1 as u32,
                day: date_of(v).2 as u32,
            },
            time: NaiveTime { secs: time_of(v).0 as u32, frac: v.1 as u32 },
        }
    }

    /// For a `v` that can be held, `with_view` gives a date-time whose view
    /// is `v`.
    pub proof fn lemma_view_of_with_view(v: (int, int))
        requires
            datetime_valid(v),
        ensures
            NaiveDateTime::with_view(v).inv(),
            NaiveDateTime::with_view(v)@ == v,
    {
        lemma_date_of_valid(v);
    }

    /// The date-time of `date` at `time`.
    pub fn new(date: NaiveDate, time: NaiveTime) -> (r: NaiveDateTime)
        ensures
            r@ == (date_days(date@) * 86400 + time@.0, time@.1),
    {
        proof {
            use_type_invariant(&date);
            use_type_invariant(&time);
        }
        NaiveDateTime { date, time }
    }

    /// The date-time `secs` seconds after 1970-01-01 00:00:00 with fraction
    /// `frac`, if it can be held.
    pub fn from_timestamp_opt(secs: i64, frac: u32) -> (r: Option<NaiveDateTime>)
        ensures
            r is Some <==> datetime_valid((secs as int, frac as int)),
            r matches Some(v) ==> v@ == (secs as int, frac as int),
    {
        if frac >= 2_000_000_000 {
            return None;
        }
        let (days, sod) = div_mod_floor(secs, 86400);
        proof {
            lemma_date_days_range();
        }
        match NaiveDate::from_num_days(days) {
            Some(date) => {
                proof {
                    use_type_invariant(&date);
                }
                let time = NaiveTime { secs: sod as u32, frac };
                Some(NaiveDateTime { date, time })
            },
            None => None,
        }
    }

    /// The date part.
    pub fn date(&self) -> (r: NaiveDate)
        ensures
            r@ == date_of(self@),
            date_days(r@) == self@.0 / 86400,
    {
        proof {
            use_type_invariant(self);
            use_type_invariant(&self.time);
            use_type_invariant(&self.date);
            lemma_civil_from_days(self.date@.0, self.date@.1, self.date@.2);
        }
        self.date
    }

    /// The time-of-day part.
    pub fn time(&self) -> (r: NaiveTime)
        ensures
            r@ == (self@.0 % 86400, self@.1),
    {
        proof {
            use_type_invariant(self);
            use_type_invariant(&self.time);
        }
        self.time
    }

    /// Seconds since 1970-01-01 00:00:00, leap seconds not counted.
    pub fn timestamp(&self) -> (r: i64)
        ensures
            r == self@.0,
    {
        proof {
            use_type_invariant(self);
            self.lemma_inv();
            lemma_date_days_range();
        }
        self.date.num_days() * 86400 + self.time.num_seconds_from_midnight() as i64
    }

    /// The fraction of the second in nanoseconds, up to 1999999999 during a
    /// leap second.
    pub fn nanosecond(&self) -> (r: u32)
        ensures
            r == self@.1,
    {
        self.time.nanosecond()
    }

    /// `self` moved by `rhs`, or `None` when the result cannot be held.
    pub fn checked_add(&self, rhs: &Duration) -> (r: Option<NaiveDateTime>)
        ensures
            r is Some <==> datetime_valid(add_nanos(self@, rhs@)),
            r matches Some(v) ==> v@ == add_nanos(self@, rhs@),
    {
        proof {
            use_type_invariant(self);
            self.lemma_inv();
            lemma_date_days_range();
        }
        let secs = self.timestamp();
        let frac = self.nanosecond();
        let (ds, dn) = rhs.floor_parts();
        if frac >= 1_000_000_000 && frac - 1_000_000_000 + dn < 1_000_000_000 {
            proof {
                vstd::arithmetic::div_mod::lemma_fundamental_div_mod_converse(
                    rhs@,
                    1_000_000_000,
                    ds as int,
                    dn as int,
                );
            }
            NaiveDateTime::from_timestamp_opt(secs + ds, frac + dn)
        } else {
            let lf: u32 = if frac >= 1_000_000_000 {
                frac - 1_000_000_000
            } else {
                frac
            };
            let total: u32 = lf + dn;
            let (nsecs, nfrac) = if total >= 1_000_000_000 {
                (secs + ds + 1, total - 1_000_000_000)
            } else {
                (secs + ds, total)
            };
            proof {
                let l = linear_nanos(self@) + rhs@;
                vstd::arithmetic::div_mod::lemma_fundamental_div_mod_converse(
                    l,
                    1_000_000_000,
                    nsecs as int,
                    nfrac as int,
                );
            }
            NaiveDateTime::from_timestamp_opt(nsecs, nfrac)
        }
    }

    /// `self` moved back by `rhs`, or `None` when the result cannot be held.
    pub fn checked_sub(&self, rhs: &Duration) -> (r: Option<NaiveDateTime>)
        ensures
            r is Some <==> datetime_valid(add_nanos(self@, -rhs@)),
            r matches Some(v) ==> v@ == add_nanos(self@, -rhs@),
    {
        let neg = rhs.neg();
        self.checked_add(&neg)
    }

    /// The span from `rhs` to `self`, counting a leap second as part of the
    /// second before it.
    pub fn signed_duration_since(&self, rhs: &NaiveDateTime) -> (r: Duration)
        ensures
            r@ == linear_nanos(self@) - linear_nanos(rhs@),
    {
        proof {
            use_type_invariant(self);
            use_type_invariant(rhs);
            self.lemma_inv();
            rhs.lemma_inv();
            lemma_date_days_range();
            lemma_year_start_mono(MIN_YEAR as int, MAX_YEAR + 1);
        }
        let a = self.timestamp() as i128 * 1_000_000_000 + leap_free_of(self.nanosecond()) as i128;
        let b = rhs.timestamp() as i128 * 1_000_000_000 + leap_free_of(rhs.nanosecond()) as i128;
        Duration::from_total_nanos(a - b)
    }

    /// The year.
    pub fn year(&self) -> (r: i32)
        ensures
            r == date_of(self@).0,
    {
        self.date().year()
    }

    /// The month, from 1 to 12.
    pub fn month(&self) -> (r: u32)
        ensures
            r == date_of(self@).1,
    {
        self.date().month()
    }

    /// The month, from 0 to 11.
    pub fn month0(&self) -> (r: u32)
        ensures
            r == date_of(self@).1 - 1,
    {
        self.date().month0()
    }

    /// The day of the month, from 1.
    pub fn day(&self) -> (r: u32)
        ensures
            r == date_of(self@).2,
    {
        self.date().day()
    }

    /// The day of the month, from 0.
    pub fn day0(&self) -> (r: u32)
        ensures
            r == date_of(self@).2 - 1,
    {
        self.date().day0()
    }

    /// The day of the year, from 1.
    pub fn ordinal(&self) -> (r: u32)
        ensures
            r == ordinal_of(date_of(self@).0, date_of(self@).1, date_of(self@).2),
    {
        self.date().ordinal()
    }

    /// The day of the year, from 0.
    pub fn ordinal0(&self) -> (r: u32)
        ensures
            r == ordinal_of(date_of(self@).0, date_of(self@).1, date_of(self@).2) - 1,
    {
        self.date().ordinal0()
    }

    /// The day of the week.
    pub fn weekday(&self) -> (r: Weekday)
        ensures
            r == weekday_from_index(weekday_index(self@.0 / 86400)),
    {
        self.date().weekday()
    }

    /// ISO 8601 year, week number and day of the week.
    pub fn isoweekdate(&self) -> (r: (i32, u32, Weekday))
        ensures
            r.0 == iso_year(self@.0 / 86400),
            r.1 == iso_week(self@.0 / 86400),
            r.2 == weekday_from_index(weekday_index(self@.0 / 86400)),
    {
        self.date().isoweekdate()
    }

    /// The hour, from 0 to 23.
    pub fn hour(&self) -> (r: u32)
        ensures
            r == self@.0 % 86400 / 3600,
    {
        self.time().hour()
    }

    /// The minute, from 0 to 59.
    pub fn minute(&self) -> (r: u32)
        ensures
            r == self@.0 % 86400 / 60 % 60,
    {
        self.time().minute()
    }

    /// The second, from 0 to 59.
    pub fn second(&self) -> (r: u32)
        ensures
            r == self@.0 % 86400 % 60,
    {
        self.time().second()
    }

    /// Keeps the time of day and moves to the date `date`.
    fn with_date_part(&self, date: Option<NaiveDate>) -> (r: Option<NaiveDateTime>)
        ensures
            r is Some <==> date is Some,
            r matches Some(v) ==> v@ == replace_date(self@, date->0@),
    {
        proof {
            use_type_invariant(self);
        }
        match date {
            Some(d) => Some(NaiveDateTime::new(d, self.time())),
            None => None,
        }
    }

    /// Keeps the date and moves to the time of day `time`.
    fn with_time_part(&self, time: Option<NaiveTime>) -> (r: Option<NaiveDateTime>)
        ensures
            r is Some <==> time is Some,
            r matches Some(v) ==> v@ == replace_time(self@, time->0@),
    {
        match time {
            Some(t) => Some(NaiveDateTime::new(self.date(), t)),
            None => None,
        }
    }

    /// The same date-time in `year`, if that date exists and is held.
    pub fn with_year(&self, year: i32) -> (r: Option<NaiveDateTime>)
        ensures
            opt_view(r) == date_change(self@, (year as int, date_of(self@).1, date_of(self@).2)),
    {
        self.with_date_part(self.date().with_year(year))
    }

    /// The same date-time in `month` (1 to 12), if that date exists.
    pub fn with_month(&self, month: u32) -> (r: Option<NaiveDateTime>)
        ensures
            opt_view(r) == date_change(self@, (date_of(self@).0, month as int, date_of(self@).2)),
    {
        self.with_date_part(self.date().with_month(month))
    }

    /// The same date-time in `month0` (0 to 11), if that date exists.
    pub fn with_month0(&self, month0: u32) -> (r: Option<NaiveDateTime>)
        ensures
            opt_view(r) == date_change(self@, (date_of(self@).0, month0 + 1, date_of(self@).2)),
    {
        self.with_date_part(self.date().with_month0(month0))
    }

    /// The same date-time on `day` (from 1), if that date exists.
    pub fn with_day(&self, day: u32) -> (r: Option<NaiveDateTime>)
        ensures
            opt_view(r) == date_change(self@, (date_of(self@).0, date_of(self@).1, day as int)),
    {
        self.with_date_part(self.date().with_day(day))
    }

    /// The same date-time on `day0` (from 0), if that date exists.
    pub fn with_day0(&self, day0: u32) -> (r: Option<NaiveDateTime>)
        ensures
            opt_view(r) == date_change(self@, (date_of(self@).0, date_of(self@).1, day0 + 1)),
    {
        self.with_date_part(self.date().with_day0(day0))
    }

    /// The same date-time on day of the year `ordinal` (from 1), if it exists.
    pub fn with_ordinal(&self, ordinal: u32) -> (r: Option<NaiveDateTime>)
        ensures
            opt_view(r) == ordinal_change(self@, ordinal as int),
    {
        self.on_ordinal(self.date().with_ordinal(ordinal), Ghost(ordinal as int))
    }

    /// The same date-time on day of the year `ordinal0` (from 0), if it exists.
    pub fn with_ordinal0(&self, ordinal0: u32) -> (r: Option<NaiveDateTime>)
        ensures
            opt_view(r) == ordinal_change(self@, ordinal0 + 1),
    {
        self.on_ordinal(self.date().with_ordinal0(ordinal0), Ghost(ordinal0 + 1))
    }

    /// The date-time at `hour` (below 24), other fields kept.
    pub fn with_hour(&self, hour: u32) -> (r: Option<NaiveDateTime>)
        ensures
            opt_view(r) == time_change(
                self@,
                hour < 24,
                (hour * 3600 + self@.0 % 86400 % 3600, self@.1),
            ),
    {
        self.with_time_part(self.time().with_hour(hour))
    }

    /// The date-time at minute `min` (below 60), other fields kept.
    pub fn with_minute(&self, min: u32) -> (r: Option<NaiveDateTime>)
        ensures
            opt_view(r) == time_change(
                self@,
                min < 60,
                (self@.0 % 86400 / 3600 * 3600 + min * 60 + self@.0 % 86400 % 60, self@.1),
            ),
    {
        self.with_time_part(self.time().with_minute(min))
    }

    /// The date-time at second `sec` (below 60), other fields kept.
    pub fn with_second(&self, sec: u32) -> (r: Option<NaiveDateTime>)
        ensures
            opt_view(r) == time_change(
                self@,
                sec < 60,
                (self@.0 % 86400 / 60 * 60 + sec, self@.1),
            ),
    {
        self.with_time_part(self.time().with_second(sec))
    }

    /// The date-time with fraction `nano` (below two seconds), other fields kept.
    pub fn with_nanosecond(&self, nano: u32) -> (r: Option<NaiveDateTime>)
        ensures
            opt_view(r) == time_change(self@, nano < 2_000_000_000, (self@.0 % 86400, nano as int)),
    {
        self.with_time_part(self.time().with_nanosecond(nano))
    }

    /// Keeps the time of day and moves to the date with day of the year
    /// `o` in the same year.
    fn on_ordinal(&self, date: Option<NaiveDate>, Ghost(o): Ghost<int>) -> (r: Option<NaiveDateTime>)
        requires
            date is Some <==> 1 <= o <= days_in_year(date_of(self@).0),
            date matches Some(d) ==> d@.0 == date_of(self@).0 && ordinal_of(d@.0, d@.1, d@.2)
                == o,
        ensures
            opt_view(r) == ordinal_change(self@, o),
    {
        proof {
            use_type_invariant(self);
        }
        match date {
            Some(d) => {
                proof {
                    use_type_invariant(&d);
                    lemma_civil_from_days(d@.0, d@.1, d@.2);
                }
                Some(NaiveDateTime::new(d, self.time()))
            },
            None => None,
        }
    }
}

/// The fraction with a leap second folded into the second before it.
pub fn leap_free_of(f: u32) -> (r: u32)
    ensures
        r == leap_free(f as int),
{
    if f >= 1_000_000_000 {
        f - 1_000_000_000
    } else {
        f
    }
}

} // verus!
