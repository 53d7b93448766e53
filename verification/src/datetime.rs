//! ISO 8601 date and time with time zone.
//!
//! A `DateTime` holds an instant as a UTC date-time together with the
//! offset of its time zone; its local date and time are the UTC ones moved
//! by the offset.
use vstd::prelude::*;
use crate::calendar::{ordinal_of, weekday_index, MIN_YEAR, MAX_YEAR, lemma_year_start_mono};
use crate::duration::{Duration, nanos_representable};
use crate::naive::{
    NaiveDate, NaiveDateTime, NaiveTime, Weekday, datetime_valid, secs_in_range, date_days,
    date_of, time_of, add_nanos, linear_nanos, weekday_from_index, iso_year, iso_week,
    hms_secs, opt_view, date_change, time_change, ordinal_change, lemma_date_days_range,
    lemma_add_then_sub, lemma_add_linear,
};
use crate::offset::{Offset, offset_in_range};

verus! {

/// A date in a time zone.
#[derive(Clone, Copy, Debug)]
pub struct Date<Tz: Offset> {
    date: NaiveDate,
    offset: Tz,
}

impl<Tz: Offset> Date<Tz> {
    /// The date held.
    pub closed spec fn local_date(self) -> NaiveDate {
        self.date
    }

    /// The time zone.
    pub closed spec fn offset_value(self) -> Tz {
        self.offset
    }

    /// The date `date` in the time zone of `offset`.
    pub fn from_local(date: NaiveDate, offset: Tz) -> (r: Date<Tz>)
        ensures
            r.local_date() == date,
            r.offset_value() == offset,
    {
        Date { date, offset }
    }

    /// The date, without time zone.
    pub fn naive_local(&self) -> (r: NaiveDate)
        ensures
            r == self.local_date(),
    {
        self.date
    }

    /// The time zone.
    pub fn offset(&self) -> (r: &Tz)
        ensures
            *r == self.offset_value(),
    {
        &self.offset
    }

    /// This date at `hour:min:sec` local time, if the time is valid and the
    /// instant can be held.
    pub fn and_hms_opt(&self, hour: u32, min: u32, sec: u32) -> (r: Option<DateTime<Tz>>)
        ensures
            r is Some <==> hour < 24 && min < 60 && sec < 60 && secs_in_range(
                date_days(self.local_date()@) * 86400 + hms_secs(hour, min, sec)
                    - self.offset_value().fix_spec(),
            ),
            r matches Some(v) ==> v.local() == (
                date_days(self.local_date()@) * 86400 + hms_secs(hour, min, sec),
                0int,
            ) && v@.1 == self.offset_value(),
    {
        match self.date.and_hms_opt(hour, min, sec) {
            Some(local) => DateTime::from_local(&local, self.offset),
            None => None,
        }
    }

    /// This date at `hour:min:sec` local time, which must be valid and give
    /// an instant that can be held.
    pub fn and_hms(&self, hour: u32, min: u32, sec: u32) -> (r: DateTime<Tz>)
        requires
            hour < 24 && min < 60 && sec < 60,
            secs_in_range(
                date_days(self.local_date()@) * 86400 + hms_secs(hour, min, sec)
                    - self.offset_value().fix_spec(),
            ),
        ensures
            r.local() == (date_days(self.local_date()@) * 86400 + hms_secs(hour, min, sec), 0int),
            r@.1 == self.offset_value(),
    {
        let local = match self.date.and_hms_opt(hour, min, sec) {
            Some(l) => l,
            None => self.date.and_time(NaiveTime::from_hms(0, 0, 0)),
        };
        DateTime::from_local_within(&local, self.offset)
    }

    /// This date at `hour:min:sec` and `milli` milliseconds local time, if
    /// the time is valid and the instant can be held.
    pub fn and_hms_milli_opt(&self, hour: u32, min: u32, sec: u32, milli: u32) -> (r: Option<
        DateTime<Tz>,
    >)
        ensures
            r is Some <==> hour < 24 && min < 60 && sec < 60 && milli < 2000 && secs_in_range(
                date_days(self.local_date()@) * 86400 + hms_secs(hour, min, sec)
                    - self.offset_value().fix_spec(),
            ),
            r matches Some(v) ==> v.local() == (
                date_days(self.local_date()@) * 86400 + hms_secs(hour, min, sec),
                milli * 1_000_000,
            ) && v@.1 == self.offset_value(),
    {
        match self.date.and_hms_milli_opt(hour, min, sec, milli) {
            Some(local) => DateTime::from_local(&local, self.offset),
            None => None,
        }
    }

    /// This date at `hour:min:sec` and `milli` milliseconds local time,
    /// which must be valid and give an instant that can be held.
    pub fn and_hms_milli(&self, hour: u32, min: u32, sec: u32, milli: u32) -> (r: DateTime<Tz>)
        requires
            hour < 24 && min < 60 && sec < 60 && milli < 2000,
            secs_in_range(
                date_days(self.local_date()@) * 86400 + hms_secs(hour, min, sec)
                    - self.offset_value().fix_spec(),
            ),
        ensures
            r.local() == (
                date_days(self.local_date()@) * 86400 + hms_secs(hour, min, sec),
                milli * 1_000_000,
            ),
            r@.1 == self.offset_value(),
    {
        let local = match self.date.and_hms_milli_opt(hour, min, sec, milli) {
            Some(l) => l,
            None => self.date.and_time(NaiveTime::from_hms(0, 0, 0)),
        };
        DateTime::from_local_within(&local, self.offset)
    }

    /// This date at `hour:min:sec` and `micro` microseconds local time, if
    /// the time is valid and the instant can be held.
    pub fn and_hms_micro_opt(&self, hour: u32, min: u32, sec: u32, micro: u32) -> (r: Option<
        DateTime<Tz>,
    >)
        ensures
            r is Some <==> hour < 24 && min < 60 && sec < 60 && micro < 2_000_000
                && secs_in_range(
                date_days(self.local_date()@) * 86400 + hms_secs(hour, min, sec)
                    - self.offset_value().fix_spec(),
            ),
            r matches Some(v) ==> v.local() == (
                date_days(self.local_date()@) * 86400 + hms_secs(hour, min, sec),
                micro * 1_000,
            ) && v@.1 == self.offset_value(),
    {
        match self.date.and_hms_micro_opt(hour, min, sec, micro) {
            Some(local) => DateTime::from_local(&local, self.offset),
            None => None,
        }
    }

    /// This date at `hour:min:sec` and `micro` microseconds local time,
    /// which must be valid and give an instant that can be held.
    pub fn and_hms_micro(&self, hour: u32, min: u32, sec: u32, micro: u32) -> (r: DateTime<Tz>)
        requires
            hour < 24 && min < 60 && sec < 60 && micro < 2_000_000,
            secs_in_range(
                date_days(self.local_date()@) * 86400 + hms_secs(hour, min, sec)
                    - self.offset_value().fix_spec(),
            ),
        ensures
            r.local() == (
                date_days(self.local_date()@) * 86400 + hms_secs(hour, min, sec),
                micro * 1_000,
            ),
            r@.1 == self.offset_value(),
    {
        let local = match self.date.and_hms_micro_opt(hour, min, sec, micro) {
            Some(l) => l,
            None => self.date.and_time(NaiveTime::from_hms(0, 0, 0)),
        };
        DateTime::from_local_within(&local, self.offset)
    }

    /// This date at `hour:min:sec` and `nano` nanoseconds local time, if the
    /// time is valid and the instant can be held.
    pub fn and_hms_nano_opt(&self, hour: u32, min: u32, sec: u32, nano: u32) -> (r: Option<
        DateTime<Tz>,
    >)
        ensures
            r is Some <==> hour < 24 && min < 60 && sec < 60 && nano < 2_000_000_000
                && secs_in_range(
                date_days(self.local_date()@) * 86400 + hms_secs(hour, min, sec)
                    - self.offset_value().fix_spec(),
            ),
            r matches Some(v) ==> v.local() == (
                date_days(self.local_date()@) * 86400 + hms_secs(hour, min, sec),
                nano as int,
            ) && v@.1 == self.offset_value(),
    {
        match self.date.and_hms_nano_opt(hour, min, sec, nano) {
            Some(local) => DateTime::from_local(&local, self.offset),
            None => None,
        }
    }

    /// This date at `hour:min:sec` and `nano` nanoseconds local time, which
    /// must be valid and give an instant that can be held.
    pub fn and_hms_nano(&self, hour: u32, min: u32, sec: u32, nano: u32) -> (r: DateTime<Tz>)
        requires
            hour < 24 && min < 60 && sec < 60 && nano < 2_000_000_000,
            secs_in_range(
                date_days(self.local_date()@) * 86400 + hms_secs(hour, min, sec)
                    - self.offset_value().fix_spec(),
            ),
        ensures
            r.local() == (
                date_days(self.local_date()@) * 86400 + hms_secs(hour, min, sec),
                nano as int,
            ),
            r@.1 == self.offset_value(),
    {
        let local = match self.date.and_hms_nano_opt(hour, min, sec, nano) {
            Some(l) => l,
            None => self.date.and_time(NaiveTime::from_hms(0, 0, 0)),
        };
        DateTime::from_local_within(&local, self.offset)
    }
}

/// ISO 8601 combined date and time with time zone.
#[derive(Debug)]
pub struct DateTime<Tz: Offset> {
    datetime: NaiveDateTime,
    offset: Tz,
}

impl<Tz: Offset> View for DateTime<Tz> {
    /// The UTC date-time and the time zone.
    type V = ((int, int), Tz);

    closed spec fn view(&self) -> ((int, int), Tz) {
        (self.datetime@, self.offset)
    }
}

/// The local date-time of the UTC date-time `utc` in a zone `fix` seconds
/// ahead of UTC.
pub open spec fn local_of(utc: (int, int), fix: int) -> (int, int) {
    (utc.0 + fix, utc.1)
}

/// The UTC date-time of the local date-time `local` in a zone `fix` seconds
/// ahead of UTC.
pub open spec fn utc_of(local: (int, int), fix: int) -> (int, int) {
    (local.0 - fix, local.1)
}

/// The view of a date-time built from an optional local date-time, if the
/// instant can be held.
pub open spec fn from_local_spec<Tz: Offset>(local: Option<(int, int)>, tz: Tz) -> Option<
    ((int, int), Tz),
> {
    match local {
        Some(l) => if secs_in_range(l.0 - tz.fix_spec()) {
            Some((utc_of(l, tz.fix_spec()), tz))
        } else {
            None
        },
        None => None,
    }
}

/// The view of an optional date-time.
pub open spec fn opt_dt_view<Tz: Offset>(r: Option<DateTime<Tz>>) -> Option<((int, int), Tz)> {
    match r {
        Some(v) => Some(v@),
        None => None,
    }
}

impl<Tz: Offset> DateTime<Tz> {
    #[verifier::type_invariant]
    pub closed spec fn inv(self) -> bool {
        &&& self.datetime.inv()
        &&& offset_in_range(self.offset.fix_spec())
    }

    /// What every `DateTime` satisfies: its UTC date-time can be held and its
    /// offset is less than a day; its local date-time can be held when its
    /// seconds are in range.
    pub proof fn lemma_inv(self)
        requires
            self.inv(),
        ensures
            datetime_valid(self@.0),
            offset_in_range(self@.1.fix_spec()),
            self.local_held() <==> datetime_valid(self.local()),
    {
        self.datetime.lemma_inv();
    }

    /// Whether the local date-time can be held. Near the ends of the range
    /// of UTC date-times it may not be; what reads the local date-time asks
    /// for it.
    pub open spec fn local_held(self) -> bool {
        secs_in_range(self.local().0)
    }

    /// Seconds by which local time is ahead of UTC.
    pub open spec fn fix(self) -> int {
        self@.1.fix_spec()
    }

    /// The local date-time.
    pub open spec fn local(self) -> (int, int) {
        local_of(self@.0, self.fix())
    }

    /// The date-time at UTC date-time `datetime` in the zone of `offset`.
    pub fn from_utc(datetime: NaiveDateTime, offset: Tz) -> (r: DateTime<Tz>)
        ensures
            r@ == (datetime@, offset),
    {
        // `local_minus_utc` establishes that the offset is less than a day.
        let _fix = offset.local_minus_utc();
        proof {
            use_type_invariant(&datetime);
        }
        DateTime { datetime, offset }
    }

    /// The date-time whose local date-time in the zone of `offset` is
    /// `local`, if that instant can be held.
    pub fn from_local(local: &NaiveDateTime, offset: Tz) -> (r: Option<DateTime<Tz>>)
        ensures
            opt_dt_view(r) == from_local_spec(Some(local@), offset),
    {
        proof {
            use_type_invariant(local);
            local.lemma_inv();
            lemma_date_days_range();
        }
        let fix = offset.local_minus_utc();
        match NaiveDateTime::from_timestamp_opt(local.timestamp() - fix as i64, local.nanosecond()) {
            Some(utc) => {
                proof {
                    use_type_invariant(&utc);
                }
                Some(DateTime { datetime: utc, offset })
            },
            None => None,
        }
    }

    /// The date-time whose local date-time in the zone of `offset` is
    /// `local`; that instant must be one that can be held.
    fn from_local_within(local: &NaiveDateTime, offset: Tz) -> (r: DateTime<Tz>)
        requires
            secs_in_range(local@.0 - offset.fix_spec()),
        ensures
            r@ == (utc_of(local@, offset.fix_spec()), offset),
    {
        proof {
            use_type_invariant(local);
        }
        match DateTime::from_local(local, offset) {
            Some(v) => v,
            None => DateTime { datetime: *local, offset },
        }
    }

    /// The date: the date of the UTC date-time, in this time zone.
    pub fn date(&self) -> (r: Date<Tz>)
        ensures
            r.local_date()@ == date_of(self@.0),
            r.offset_value() == self@.1,
    {
        Date::from_local(self.datetime.date(), self.offset)
    }

    /// The local time of day: the UTC time of day moved by the offset,
    /// wrapping around midnight.
    pub fn time(&self) -> (r: NaiveTime)
        ensures
            r@ == time_of(self.local()),
    {
        let t = self.datetime.time();
        let fix = self.offset.local_minus_utc() as i64;
        let secs: i64 = t.num_seconds_from_midnight() as i64 + fix;
        let wrapped: i64 = if secs < 0 {
            secs + 86400
        } else if secs >= 86400 {
            secs - 86400
        } else {
            secs
        };
        proof {
            let u = self@.0.0;
            vstd::arithmetic::div_mod::lemma_add_mod_noop(u, fix as int, 86400);
            vstd::arithmetic::div_mod::lemma_mod_self_0(86400);
            assert((u + fix) % 86400 == (u % 86400 + fix) % 86400) by {
                vstd::arithmetic::div_mod::lemma_mod_twice(fix as int, 86400);
                vstd::arithmetic::div_mod::lemma_add_mod_noop(u % 86400, fix as int, 86400);
                vstd::arithmetic::div_mod::lemma_mod_twice(u, 86400);
            }
            assert(wrapped == (u % 86400 + fix) % 86400);
        }
        match NaiveTime::from_num_seconds_from_midnight_opt(wrapped as u32, t.nanosecond()) {
            Some(r) => r,
            None => t,
        }
    }

    /// Seconds since 1970-01-01 00:00:00 UTC, leap seconds not counted.
    pub fn timestamp(&self) -> (r: i64)
        ensures
            r == self@.0.0,
    {
        self.datetime.timestamp()
    }

    /// Same as `timestamp`.
    pub fn num_seconds_from_unix_epoch(&self) -> (r: i64)
        ensures
            r == self@.0.0,
    {
        self.timestamp()
    }

    /// The offset from UTC.
    pub fn offset(&self) -> (r: &Tz)
        ensures
            *r == self@.1,
    {
        &self.offset
    }

    /// The time zone.
    pub fn timezone(&self) -> (r: Tz)
        ensures
            r == self@.1,
    {
        self.offset
    }

    /// The same instant in the time zone of `tz`.
    pub fn with_timezone<Tz2: Offset>(&self, tz: &Tz2) -> (r: DateTime<Tz2>)
        ensures
            r@ == (self@.0, *tz),
    {
        DateTime::from_utc(self.datetime, *tz)
    }

    /// The instant `rhs` later, in the same time zone, or `None` when it
    /// cannot be held.
    pub fn checked_add(self, rhs: Duration) -> (r: Option<DateTime<Tz>>)
        ensures
            r is Some <==> datetime_valid(add_nanos(self@.0, rhs@)),
            r matches Some(v) ==> v@ == (add_nanos(self@.0, rhs@), self@.1),
    {
        match self.datetime.checked_add(&rhs) {
            Some(dt) => Some(DateTime::from_utc(dt, self.offset)),
            None => None,
        }
    }

    /// The instant `rhs` earlier, in the same time zone, or `None` when it
    /// cannot be held.
    pub fn checked_sub(self, rhs: Duration) -> (r: Option<DateTime<Tz>>)
        ensures
            r is Some <==> datetime_valid(add_nanos(self@.0, -rhs@)),
            r matches Some(v) ==> v@ == (add_nanos(self@.0, -rhs@), self@.1),
    {
        match self.datetime.checked_sub(&rhs) {
            Some(dt) => Some(DateTime::from_utc(dt, self.offset)),
            None => None,
        }
    }

    /// The instant `rhs` later, in the same time zone, which must be one
    /// that can be held.
    pub fn add_duration(self, rhs: Duration) -> (r: DateTime<Tz>)
        requires
            datetime_valid(add_nanos(self@.0, rhs@)),
        ensures
            r@ == (add_nanos(self@.0, rhs@), self@.1),
    {
        let dt = match self.datetime.checked_add(&rhs) {
            Some(d) => d,
            None => self.datetime,
        };
        DateTime::from_utc(dt, self.offset)
    }

    /// The instant `rhs` earlier, in the same time zone, which must be one
    /// that can be held.
    pub fn sub_duration(self, rhs: Duration) -> (r: DateTime<Tz>)
        requires
            datetime_valid(add_nanos(self@.0, -rhs@)),
        ensures
            r@ == (add_nanos(self@.0, -rhs@), self@.1),
    {
        let dt = match self.datetime.checked_sub(&rhs) {
            Some(d) => d,
            None => self.datetime,
        };
        DateTime::from_utc(dt, self.offset)
    }

    /// The span from `rhs` to `self`, counting a leap second as part of the
    /// second before it.
    pub fn signed_duration_since<Tz2: Offset>(&self, rhs: &DateTime<Tz2>) -> (r: Duration)
        ensures
            r@ == linear_nanos(self@.0) - linear_nanos(rhs@.0),
    {
        self.datetime.signed_duration_since(&rhs.datetime)
    }

    /// The UTC date-time.
    pub fn naive_utc(&self) -> (r: NaiveDateTime)
        ensures
            r@ == self@.0,
            datetime_valid(r@),
    {
        proof {
            use_type_invariant(self);
            self.lemma_inv();
        }
        self.datetime
    }

    /// The local date-time, which must be one that can be held.
    pub fn naive_local(&self) -> (r: NaiveDateTime)
        requires
            self.local_held(),
        ensures
            r@ == self.local(),
    {
        proof {
            use_type_invariant(self);
            self.lemma_inv();
            lemma_date_days_range();
        }
        let fix = self.offset.local_minus_utc();
        match NaiveDateTime::from_timestamp_opt(
            self.datetime.timestamp() + fix as i64,
            self.datetime.nanosecond(),
        ) {
            Some(v) => v,
            None => self.datetime,
        }
    }

    /// The date-time in this time zone whose local date-time is `local`,
    /// which must give an instant that can be held.
    fn map_local(&self, local: Option<NaiveDateTime>) -> (r: Option<DateTime<Tz>>)
        requires
            local matches Some(l) ==> secs_in_range(l@.0 - self.fix()),
        ensures
            opt_dt_view(r) == from_local_spec(opt_view(local), self@.1),
    {
        match local {
            Some(l) => DateTime::from_local(&l, self.offset),
            None => None,
        }
    }

    /// The local year.
    pub fn year(&self) -> (r: i32)
        requires
            self.local_held(),
        ensures
            r == date_of(self.local()).0,
    {
        self.naive_local().year()
    }

    /// The local month, from 1 to 12.
    pub fn month(&self) -> (r: u32)
        requires
            self.local_held(),
        ensures
            r == date_of(self.local()).1,
    {
        self.naive_local().month()
    }

    /// The local month, from 0 to 11.
    pub fn month0(&self) -> (r: u32)
        requires
            self.local_held(),
        ensures
            r == date_of(self.local()).1 - 1,
    {
        self.naive_local().month0()
    }

    /// The local day of the month, from 1.
    pub fn day(&self) -> (r: u32)
        requires
            self.local_held(),
        ensures
            r == date_of(self.local()).2,
    {
        self.naive_local().day()
    }

    /// The local day of the month, from 0.
    pub fn day0(&self) -> (r: u32)
        requires
            self.local_held(),
        ensures
            r == date_of(self.local()).2 - 1,
    {
        self.naive_local().day0()
    }

    /// The local day of the year, from 1.
    pub fn ordinal(&self) -> (r: u32)
        requires
            self.local_held(),
        ensures
            r == ordinal_of(
                date_of(self.local()).0,
                date_of(self.local()).1,
                date_of(self.local()).2,
            ),
    {
        self.naive_local().ordinal()
    }

    /// The local day of the year, from 0.
    pub fn ordinal0(&self) -> (r: u32)
        requires
            self.local_held(),
        ensures
            r == ordinal_of(
                date_of(self.local()).0,
                date_of(self.local()).1,
                date_of(self.local()).2,
            ) - 1,
    {
        self.naive_local().ordinal0()
    }

    /// The local day of the week.
    pub fn weekday(&self) -> (r: Weekday)
        requires
            self.local_held(),
        ensures
            r == weekday_from_index(weekday_index(self.local().0 / 86400)),
    {
        self.naive_local().weekday()
    }

    /// ISO 8601 year, week number and day of the week of the local date.
    pub fn isoweekdate(&self) -> (r: (i32, u32, Weekday))
        requires
            self.local_held(),
        ensures
            r.0 == iso_year(self.local().0 / 86400),
            r.1 == iso_week(self.local().0 / 86400),
            r.2 == weekday_from_index(weekday_index(self.local().0 / 86400)),
    {
        self.naive_local().isoweekdate()
    }

    /// The local hour, from 0 to 23.
    pub fn hour(&self) -> (r: u32)
        requires
            self.local_held(),
        ensures
            r == self.local().0 % 86400 / 3600,
    {
        self.naive_local().hour()
    }

    /// The local minute, from 0 to 59.
    pub fn minute(&self) -> (r: u32)
        requires
            self.local_held(),
        ensures
            r == self.local().0 % 86400 / 60 % 60,
    {
        self.naive_local().minute()
    }

    /// The local second, from 0 to 59.
    pub fn second(&self) -> (r: u32)
        requires
            self.local_held(),
        ensures
            r == self.local().0 % 86400 % 60,
    {
        self.naive_local().second()
    }

    /// The fraction of the second in nanoseconds, up to 1999999999 during a
    /// leap second.
    pub fn nanosecond(&self) -> (r: u32)
        ensures
            r == self@.0.1,
    {
        self.datetime.nanosecond()
    }

    /// Whether the UTC instant of every local date-time in `local` can be held.
    pub open spec fn utc_fits(self, local: Option<(int, int)>) -> bool {
        local matches Some(l) ==> secs_in_range(l.0 - self.fix())
    }

    /// The same local date-time in `year`, if that date exists; the instant
    /// must be one that can be held.
    pub fn with_year(&self, year: i32) -> (r: Option<DateTime<Tz>>)
        requires
            self.local_held(),
            self.utc_fits(
                date_change(
                    self.local(),
                    (year as int, date_of(self.local()).1, date_of(self.local()).2),
                ),
            ),
        ensures
            opt_dt_view(r) == from_local_spec(
                date_change(
                    self.local(),
                    (year as int, date_of(self.local()).1, date_of(self.local()).2),
                ),
                self@.1,
            ),
    {
        self.map_local(self.naive_local().with_year(year))
    }

    /// The same local date-time in `month` (1 to 12), if that date exists;
    /// the instant must be one that can be held.
    pub fn with_month(&self, month: u32) -> (r: Option<DateTime<Tz>>)
        requires
            self.local_held(),
            self.utc_fits(
                date_change(
                    self.local(),
                    (date_of(self.local()).0, month as int, date_of(self.local()).2),
                ),
            ),
        ensures
            opt_dt_view(r) == from_local_spec(
                date_change(
                    self.local(),
                    (date_of(self.local()).0, month as int, date_of(self.local()).2),
                ),
                self@.1,
            ),
    {
        self.map_local(self.naive_local().with_month(month))
    }

    /// The same local date-time in `month0` (0 to 11), if that date exists;
    /// the instant must be one that can be held.
    pub fn with_month0(&self, month0: u32) -> (r: Option<DateTime<Tz>>)
        requires
            self.local_held(),
            self.utc_fits(
                date_change(
                    self.local(),
                    (date_of(self.local()).0, month0 + 1, date_of(self.local()).2),
                ),
            ),
        ensures
            opt_dt_view(r) == from_local_spec(
                date_change(
                    self.local(),
                    (date_of(self.local()).0, month0 + 1, date_of(self.local()).2),
                ),
                self@.1,
            ),
    {
        self.map_local(self.naive_local().with_month0(month0))
    }

    /// The same local date-time on `day` (from 1), if that date exists; the
    /// instant must be one that can be held.
    pub fn with_day(&self, day: u32) -> (r: Option<DateTime<Tz>>)
        requires
            self.local_held(),
            self.utc_fits(
                date_change(
                    self.local(),
                    (date_of(self.local()).0, date_of(self.local()).1, day as int),
                ),
            ),
        ensures
            opt_dt_view(r) == from_local_spec(
                date_change(
                    self.local(),
                    (date_of(self.local()).0, date_of(self.local()).1, day as int),
                ),
                self@.1,
            ),
    {
        self.map_local(self.naive_local().with_day(day))
    }

    /// The same local date-time on `day0` (from 0), if that date exists; the
    /// instant must be one that can be held.
    pub fn with_day0(&self, day0: u32) -> (r: Option<DateTime<Tz>>)
        requires
            self.local_held(),
            self.utc_fits(
                date_change(
                    self.local(),
                    (date_of(self.local()).0, date_of(self.local()).1, day0 + 1),
                ),
            ),
        ensures
            opt_dt_view(r) == from_local_spec(
                date_change(
                    self.local(),
                    (date_of(self.local()).0, date_of(self.local()).1, day0 + 1),
                ),
                self@.1,
            ),
    {
        self.map_local(self.naive_local().with_day0(day0))
    }

    /// The same local date-time on day of the year `ordinal` (from 1), if it
    /// exists; the instant must be one that can be held.
    pub fn with_ordinal(&self, ordinal: u32) -> (r: Option<DateTime<Tz>>)
        requires
            self.local_held(),
            self.utc_fits(ordinal_change(self.local(), ordinal as int)),
        ensures
            opt_dt_view(r) == from_local_spec(
                ordinal_change(self.local(), ordinal as int),
                self@.1,
            ),
    {
        self.map_local(self.naive_local().with_ordinal(ordinal))
    }

    /// The same local date-time on day of the year `ordinal0` (from 0), if
    /// it exists; the instant must be one that can be held.
    pub fn with_ordinal0(&self, ordinal0: u32) -> (r: Option<DateTime<Tz>>)
        requires
            self.local_held(),
            self.utc_fits(ordinal_change(self.local(), ordinal0 + 1)),
        ensures
            opt_dt_view(r) == from_local_spec(ordinal_change(self.local(), ordinal0 + 1), self@.1),
    {
        self.map_local(self.naive_local().with_ordinal0(ordinal0))
    }

    /// The same local date-time at `hour` (below 24); the instant must be one
    /// that can be held.
    pub fn with_hour(&self, hour: u32) -> (r: Option<DateTime<Tz>>)
        requires
            self.local_held(),
            self.utc_fits(
                time_change(
                    self.local(),
                    hour < 24,
                    (hour * 3600 + self.local().0 % 86400 % 3600, self.local().1),
                ),
            ),
        ensures
            opt_dt_view(r) == from_local_spec(
                time_change(
                    self.local(),
                    hour < 24,
                    (hour * 3600 + self.local().0 % 86400 % 3600, self.local().1),
                ),
                self@.1,
            ),
    {
        self.map_local(self.naive_local().with_hour(hour))
    }

    /// The same local date-time at minute `min` (below 60); the instant must
    /// be one that can be held.
    pub fn with_minute(&self, min: u32) -> (r: Option<DateTime<Tz>>)
        requires
            self.local_held(),
            self.utc_fits(
                time_change(
                    self.local(),
                    min < 60,
                    (
                        self.local().0 % 86400 / 3600 * 3600 + min * 60 + self.local().0 % 86400
                            % 60,
                        self.local().1,
                    ),
                ),
            ),
        ensures
            opt_dt_view(r) == from_local_spec(
                time_change(
                    self.local(),
                    min < 60,
                    (
                        self.local().0 % 86400 / 3600 * 3600 + min * 60 + self.local().0 % 86400
                            % 60,
                        self.local().1,
                    ),
                ),
                self@.1,
            ),
    {
        self.map_local(self.naive_local().with_minute(min))
    }

    /// The same local date-time at second `sec` (below 60); the instant must
    /// be one that can be held.
    pub fn with_second(&self, sec: u32) -> (r: Option<DateTime<Tz>>)
        requires
            self.local_held(),
            self.utc_fits(
                time_change(
                    self.local(),
                    sec < 60,
                    (self.local().0 % 86400 / 60 * 60 + sec, self.local().1),
                ),
            ),
        ensures
            opt_dt_view(r) == from_local_spec(
                time_change(
                    self.local(),
                    sec < 60,
                    (self.local().0 % 86400 / 60 * 60 + sec, self.local().1),
                ),
                self@.1,
            ),
    {
        self.map_local(self.naive_local().with_second(sec))
    }

    /// The same local date-time with fraction `nano` (below two seconds);
    /// the instant must be one that can be held.
    pub fn with_nanosecond(&self, nano: u32) -> (r: Option<DateTime<Tz>>)
        requires
            self.local_held(),
            self.utc_fits(
                time_change(
                    self.local(),
                    nano < 2_000_000_000,
                    (self.local().0 % 86400, nano as int),
                ),
            ),
        ensures
            opt_dt_view(r) == from_local_spec(
                time_change(
                    self.local(),
                    nano < 2_000_000_000,
                    (self.local().0 % 86400, nano as int),
                ),
                self@.1,
            ),
    {
        self.map_local(self.naive_local().with_nanosecond(nano))
    }
}

/// The local date-time of a date-time, read in its own time zone, gives
/// the date-time back.
pub proof fn lemma_local_roundtrip<Tz: Offset>(dt: DateTime<Tz>)
    requires
        dt.inv(),
    ensures
        from_local_spec(Some(dt.local()), dt@.1) == Some(dt@),
{
    dt.lemma_inv();
}

/// Outside a leap second, a date-time moved later by `d` and then earlier
/// by `d` is where it started, and moving it back can always be done.
pub proof fn lemma_add_then_sub_roundtrip<Tz: Offset>(dt: DateTime<Tz>, d: int)
    requires
        dt.inv(),
        dt@.0.1 < 1_000_000_000,
    ensures
        add_nanos(add_nanos(dt@.0, d), -d) == dt@.0,
        datetime_valid(add_nanos(add_nanos(dt@.0, d), -d)),
{
    dt.lemma_inv();
    lemma_add_then_sub(dt@.0, d);
}

/// The span from a date-time to the date-time `d` nanoseconds later is `d`.
pub proof fn lemma_since_after_add<Tz: Offset>(dt: DateTime<Tz>, d: int)
    requires
        dt.inv(),
    ensures
        linear_nanos(add_nanos(dt@.0, d)) - linear_nanos(dt@.0) == d,
{
    dt.lemma_inv();
    lemma_add_linear(dt@.0, d);
}

impl<Tz: Offset> DateTime<Tz> {
    /// The date-time whose view is `v`, for a `v` whose UTC date-time can be
    /// held and whose offset is less than a day.
    pub closed spec fn with_view(v: ((int, int), Tz)) -> DateTime<Tz> {
        DateTime { datetime: NaiveDateTime::with_view(v.0), offset: v.1 }
    }

    /// For such a `v`, `with_view` gives a date-time whose view is `v`.
    pub proof fn lemma_view_of_with_view(v: ((int, int), Tz))
        requires
            datetime_valid(v.0),
            offset_in_range(v.1.fix_spec()),
        ensures
            DateTime::with_view(v).inv(),
            DateTime::with_view(v)@ == v,
    {
        NaiveDateTime::lemma_view_of_with_view(v.0);
    }

    /// A date-time is the one `with_view` gives for its view.
    proof fn lemma_with_view(self)
        requires
            self.inv(),
        ensures
            DateTime::with_view(self@) == self,
    {
        self.datetime.lemma_inv();
        NaiveDateTime::lemma_view_of_with_view(self@.0);
        self.datetime.lemma_view_injective(NaiveDateTime::with_view(self@.0));
    }
}

/// The span between two date-times is a duration that can be held.
pub proof fn lemma_span_representable<Tz: Offset, Tz2: Offset>(a: DateTime<Tz>, b: DateTime<Tz2>)
    requires
        a.inv(),
        b.inv(),
    ensures
        nanos_representable(linear_nanos(a@.0) - linear_nanos(b@.0)),
{
    a.lemma_inv();
    b.lemma_inv();
    lemma_date_days_range();
    lemma_year_start_mono(MIN_YEAR as int, MAX_YEAR + 1);
}

impl<Tz: Offset> vstd::std_specs::ops::AddSpecImpl<Duration> for DateTime<Tz> {
    open spec fn obeys_add_spec() -> bool {
        true
    }

    open spec fn add_req(self, rhs: Duration) -> bool {
        datetime_valid(add_nanos(self@.0, rhs@))
    }

    open spec fn add_spec(self, rhs: Duration) -> DateTime<Tz> {
        DateTime::with_view((add_nanos(self@.0, rhs@), self@.1))
    }
}

/// `dt + d` is `add_duration`: the instant `d` later in the same zone.
impl<Tz: Offset> std::ops::Add<Duration> for DateTime<Tz> {
    type Output = DateTime<Tz>;

    fn add(self, rhs: Duration) -> (r: DateTime<Tz>) {
        let r = self.add_duration(rhs);
        proof {
            use_type_invariant(&r);
            r.lemma_with_view();
        }
        r
    }
}

impl<Tz: Offset> vstd::std_specs::ops::SubSpecImpl<Duration> for DateTime<Tz> {
    open spec fn obeys_sub_spec() -> bool {
        true
    }

    open spec fn sub_req(self, rhs: Duration) -> bool {
        datetime_valid(add_nanos(self@.0, -rhs@))
    }

    open spec fn sub_spec(self, rhs: Duration) -> DateTime<Tz> {
        DateTime::with_view((add_nanos(self@.0, -rhs@), self@.1))
    }
}

/// `dt - d` is `sub_duration`: the instant `d` earlier in the same zone.
impl<Tz: Offset> std::ops::Sub<Duration> for DateTime<Tz> {
    type Output = DateTime<Tz>;

    fn sub(self, rhs: Duration) -> (r: DateTime<Tz>) {
        let r = self.sub_duration(rhs);
        proof {
            use_type_invariant(&r);
            r.lemma_with_view();
        }
        r
    }
}

impl<Tz: Offset, Tz2: Offset> vstd::std_specs::ops::SubSpecImpl<DateTime<Tz2>> for DateTime<Tz> {
    open spec fn obeys_sub_spec() -> bool {
        true
    }

    open spec fn sub_req(self, rhs: DateTime<Tz2>) -> bool {
        true
    }

    open spec fn sub_spec(self, rhs: DateTime<Tz2>) -> Duration {
        Duration::with_view(linear_nanos(self@.0) - linear_nanos(rhs@.0))
    }
}

/// `a - b` is `a.signed_duration_since(&b)`.
impl<Tz: Offset, Tz2: Offset> std::ops::Sub<DateTime<Tz2>> for DateTime<Tz> {
    type Output = Duration;

    fn sub(self, rhs: DateTime<Tz2>) -> (r: Duration) {
        let r = self.signed_duration_since(&rhs);
        proof {
            use_type_invariant(&r);
            r.lemma_with_view();
        }
        r
    }
}

impl<Tz: Offset> Clone for DateTime<Tz> {
    fn clone(&self) -> (r: DateTime<Tz>)
        ensures
            r == *self,
    {
        proof {
            use_type_invariant(self);
        }
        DateTime { datetime: self.datetime, offset: self.offset }
    }
}

impl<Tz: Offset, Tz2: Offset> PartialEq<DateTime<Tz2>> for DateTime<Tz> {
    fn eq(&self, other: &DateTime<Tz2>) -> (r: bool) {
        proof {
            use_type_invariant(self);
            use_type_invariant(other);
            if self.datetime@ == other.datetime@ {
                self.datetime.lemma_view_injective(other.datetime);
            }
        }
        self.datetime == other.datetime
    }
}

impl<Tz: Offset> Eq for DateTime<Tz> {

}

impl<Tz: Offset, Tz2: Offset> vstd::std_specs::cmp::PartialEqSpecImpl<DateTime<Tz2>> for DateTime<Tz> {
    open spec fn obeys_eq_spec() -> bool {
        true
    }

    open spec fn eq_spec(&self, other: &DateTime<Tz2>) -> bool {
        self@.0 == other@.0
    }
}

} // verus!
