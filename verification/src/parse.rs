//! Reading date-times from text: the fields found so far, how they are
//! resolved into a date-time, and the scanning steps that fill them.
use vstd::prelude::*;
use vstd::string::StringSliceAdditionalSpecFns;
use crate::offset::UTC;
use crate::calendar::{
    MIN_YEAR, MAX_YEAR, weekday_index, ordinal_of, year_in_range, days_in_year, year_start,
    civil_from_days, lemma_civil_from_days, year_start_of, weekday_of_days,
};
use crate::datetime::{DateTime, utc_of};
use crate::naive::{
    NaiveDate, NaiveDateTime, NaiveTime, Weekday, date_valid, date_days, secs_in_range,
    weekday_from_index, iso_year, iso_week, first_thursday,
    isoywd_day, day_held,
};
use crate::offset::{FixedOffset, Offset, offset_in_range};
use crate::scan::{
    ParseError, skip_spaces, scan_number, scan_char, scan_nanosecond, scan_offset_zulu,
    scan_offset, skip_spaces_at, scan_number_at, scan_char_at, scan_nanosecond_at,
    scan_offset_zulu_at, scan_offset_at, Colon, scan_space, scan_short_weekday, scan_short_month,
    scan_zone_2822, scan_space_at, scan_short_weekday_at, scan_short_month_at, scan_zone_2822_at,
    scan_long_weekday, scan_long_month, scan_ampm, scan_long_weekday_at, scan_long_month_at,
    scan_ampm_at,
};
use crate::items::{Item, ItemView, Fixed, items_view, strftime_spec, strftime_items};

verus! {

/// The fields read from a text so far. The hour is kept as its division
/// by twelve (morning or afternoon) and its remainder, so that a 12-hour
/// clock and a 24-hour clock both fill it.
#[derive(Clone, Copy, Debug)]
pub struct Parsed {
    pub year: Option<i32>,
    pub year_div_100: Option<i32>,
    pub year_mod_100: Option<i32>,
    pub month: Option<u32>,
    pub day: Option<u32>,
    pub ordinal: Option<u32>,
    pub week_from_sun: Option<u32>,
    pub week_from_mon: Option<u32>,
    pub isoyear: Option<i32>,
    pub isoyear_div_100: Option<i32>,
    pub isoyear_mod_100: Option<i32>,
    pub isoweek: Option<u32>,
    pub hour_div_12: Option<u32>,
    pub hour_mod_12: Option<u32>,
    pub minute: Option<u32>,
    pub second: Option<u32>,
    pub nanosecond: Option<u32>,
    pub offset: Option<i32>,
    pub weekday: Option<Weekday>,
}

/// Which number a numeric field holds.
#[derive(Clone, Copy, Debug, PartialEq, Eq, Structural)]
pub enum Numeric {
    /// The year, which may be negative.
    Year,
    /// The year divided by 100, rounded down.
    YearDiv100,
    /// The year modulo 100.
    YearMod100,
    /// The month, from 1.
    Month,
    /// The day of the month, from 1.
    Day,
    /// The day of the year, from 1.
    Ordinal,
    /// The week of the year, weeks starting on Sunday; days before the
    /// first Sunday are in week 0.
    WeekFromSun,
    /// The week of the year, weeks starting on Monday; days before the
    /// first Monday are in week 0.
    WeekFromMon,
    /// The year of the ISO 8601 week date, which may be negative.
    IsoYear,
    /// The ISO 8601 year divided by 100, rounded down.
    IsoYearDiv100,
    /// The ISO 8601 year modulo 100.
    IsoYearMod100,
    /// The week of the ISO 8601 week date, from 1.
    IsoWeek,
    /// The hour, from 0 to 23.
    Hour,
    /// The hour on a 12-hour clock, from 1 to 12.
    Hour12,
    /// The minute.
    Minute,
    /// The second, 60 during a leap second.
    Second,
    /// The nanoseconds of the second.
    Nanosecond,
    /// The day of the week counted from Sunday, from 0.
    NumDaysFromSun,
    /// The day of the week counted from Monday, from 1.
    WeekdayFromMon,
}

/// Records `v` in a field of type `i32` that may already hold a value.
pub open spec fn set_i32(cur: Option<i32>, v: int) -> Result<Option<i32>, ParseError> {
    if v < i32::MIN || v > i32::MAX {
        Err(ParseError::OutOfRange)
    } else {
        match cur {
            Some(c) => if c == v {
                Ok(cur)
            } else {
                Err(ParseError::Impossible)
            },
            None => Ok(Some(v as i32)),
        }
    }
}

/// Records `v` in a field of type `u32` that may already hold a value.
pub open spec fn set_u32(cur: Option<u32>, v: int) -> Result<Option<u32>, ParseError> {
    if v < 0 || v > u32::MAX {
        Err(ParseError::OutOfRange)
    } else {
        match cur {
            Some(c) => if c == v {
                Ok(cur)
            } else {
                Err(ParseError::Impossible)
            },
            None => Ok(Some(v as u32)),
        }
    }
}

/// Records the hour `v` of a 24-hour clock.
pub open spec fn set_hour(p: Parsed, v: int) -> Result<Parsed, ParseError> {
    if v < 0 || v > u32::MAX {
        Err(ParseError::OutOfRange)
    } else {
        match set_u32(p.hour_div_12, v / 12) {
            Err(e) => Err(e),
            Ok(d) => match set_u32(p.hour_mod_12, v % 12) {
                Err(e) => Err(e),
                Ok(m) => Ok(Parsed { hour_div_12: d, hour_mod_12: m, ..p }),
            },
        }
    }
}

/// Records the number `v` read for the field `k`.
pub open spec fn set_numeric(p: Parsed, k: Numeric, v: int) -> Result<Parsed, ParseError> {
    match k {
        Numeric::Year => match set_i32(p.year, v) {
            Ok(f) => Ok(Parsed { year: f, ..p }),
            Err(e) => Err(e),
        },
        Numeric::YearDiv100 => if v < 0 {
            Err(ParseError::OutOfRange)
        } else {
            match set_i32(p.year_div_100, v) {
                Ok(f) => Ok(Parsed { year_div_100: f, ..p }),
                Err(e) => Err(e),
            }
        },
        Numeric::YearMod100 => if v < 0 {
            Err(ParseError::OutOfRange)
        } else {
            match set_i32(p.year_mod_100, v) {
                Ok(f) => Ok(Parsed { year_mod_100: f, ..p }),
                Err(e) => Err(e),
            }
        },
        Numeric::Month => match set_u32(p.month, v) {
            Ok(f) => Ok(Parsed { month: f, ..p }),
            Err(e) => Err(e),
        },
        Numeric::Day => match set_u32(p.day, v) {
            Ok(f) => Ok(Parsed { day: f, ..p }),
            Err(e) => Err(e),
        },
        Numeric::Ordinal => match set_u32(p.ordinal, v) {
            Ok(f) => Ok(Parsed { ordinal: f, ..p }),
            Err(e) => Err(e),
        },
        Numeric::WeekFromSun => match set_u32(p.week_from_sun, v) {
            Ok(f) => Ok(Parsed { week_from_sun: f, ..p }),
            Err(e) => Err(e),
        },
        Numeric::WeekFromMon => match set_u32(p.week_from_mon, v) {
            Ok(f) => Ok(Parsed { week_from_mon: f, ..p }),
            Err(e) => Err(e),
        },
        Numeric::IsoYear => match set_i32(p.isoyear, v) {
            Ok(f) => Ok(Parsed { isoyear: f, ..p }),
            Err(e) => Err(e),
        },
        Numeric::IsoYearDiv100 => if v < 0 {
            Err(ParseError::OutOfRange)
        } else {
            match set_i32(p.isoyear_div_100, v) {
                Ok(f) => Ok(Parsed { isoyear_div_100: f, ..p }),
                Err(e) => Err(e),
            }
        },
        Numeric::IsoYearMod100 => if v < 0 {
            Err(ParseError::OutOfRange)
        } else {
            match set_i32(p.isoyear_mod_100, v) {
                Ok(f) => Ok(Parsed { isoyear_mod_100: f, ..p }),
                Err(e) => Err(e),
            }
        },
        Numeric::IsoWeek => match set_u32(p.isoweek, v) {
            Ok(f) => Ok(Parsed { isoweek: f, ..p }),
            Err(e) => Err(e),
        },
        Numeric::Hour => set_hour(p, v),
        Numeric::Hour12 => if v < 1 || v > 12 {
            Err(ParseError::OutOfRange)
        } else {
            match set_u32(p.hour_mod_12, v % 12) {
                Ok(f) => Ok(Parsed { hour_mod_12: f, ..p }),
                Err(e) => Err(e),
            }
        },
        Numeric::Minute => match set_u32(p.minute, v) {
            Ok(f) => Ok(Parsed { minute: f, ..p }),
            Err(e) => Err(e),
        },
        Numeric::Second => match set_u32(p.second, v) {
            Ok(f) => Ok(Parsed { second: f, ..p }),
            Err(e) => Err(e),
        },
        Numeric::Nanosecond => match set_u32(p.nanosecond, v) {
            Ok(f) => Ok(Parsed { nanosecond: f, ..p }),
            Err(e) => Err(e),
        },
        Numeric::NumDaysFromSun => if 0 <= v <= 6 {
            set_weekday(p, weekday_from_index((v + 6) % 7))
        } else {
            Err(ParseError::OutOfRange)
        },
        Numeric::WeekdayFromMon => if 1 <= v <= 7 {
            set_weekday(p, weekday_from_index(v - 1))
        } else {
            Err(ParseError::OutOfRange)
        },
    }
}

/// Records the offset `v` in seconds.
pub open spec fn set_offset(p: Parsed, v: int) -> Result<Parsed, ParseError> {
    match set_i32(p.offset, v) {
        Ok(f) => Ok(Parsed { offset: f, ..p }),
        Err(e) => Err(e),
    }
}

/// Records the day of the week `w`.
pub open spec fn set_weekday(p: Parsed, w: Weekday) -> Result<Parsed, ParseError> {
    match p.weekday {
        Some(c) => if c == w {
            Ok(p)
        } else {
            Err(ParseError::Impossible)
        },
        None => Ok(Parsed { weekday: Some(w), ..p }),
    }
}

/// Records the half of the day: afternoon when `pm`.
pub open spec fn set_ampm(p: Parsed, pm: bool) -> Result<Parsed, ParseError> {
    match set_u32(p.hour_div_12, if pm {
        1int
    } else {
        0int
    }) {
        Ok(f) => Ok(Parsed { hour_div_12: f, ..p }),
        Err(e) => Err(e),
    }
}

/// The full year given by a year, a year divided by 100 and a year modulo
/// 100, any of which may be missing: a full year must agree with the other
/// two, which only a year from 0 on has; the other two make a year from 0
/// on; a year modulo 100 alone is a year from 1970 to 2069.
pub open spec fn resolve_year(y: Option<i32>, q: Option<i32>, r: Option<i32>) -> Result<
    Option<int>,
    ParseError,
> {
    if q is None && r is None {
        match y {
            Some(v) => Ok(Some(v as int)),
            None => Ok(None),
        }
    } else if y is Some && (r is None || 0 <= r->0 <= 99) {
        let v = y->0 as int;
        if v < 0 {
            Err(ParseError::OutOfRange)
        } else if (q is None || q->0 == v / 100) && (r is None || r->0 == v % 100) {
            Ok(Some(v))
        } else {
            Err(ParseError::Impossible)
        }
    } else if y is None && q is Some && r is Some && 0 <= r->0 <= 99 {
        if q->0 < 0 {
            Err(ParseError::OutOfRange)
        } else if q->0 * 100 + r->0 > i32::MAX {
            Err(ParseError::OutOfRange)
        } else {
            Ok(Some(q->0 * 100 + r->0))
        }
    } else if y is None && q is None && r is Some && 0 <= r->0 <= 99 {
        Ok(Some(r->0 + if r->0 < 70 {
            2000int
        } else {
            1900int
        }))
    } else if y is None && q is Some && r is None {
        Err(ParseError::NotEnough)
    } else {
        Err(ParseError::OutOfRange)
    }
}

/// How the parts of a year resolve: a full year read alone is that year;
/// hundreds and a remainder read without the full year give the year with
/// those; a remainder modulo 100 read alone gives the year from 1970 to
/// 2069 with that remainder.
pub proof fn lemma_resolve_year_parts(y: i32, q: i32, r: i32)
    ensures
        resolve_year(Some(y), None, None) == Ok::<Option<int>, ParseError>(Some(y as int)),
        0 <= q && 0 <= r <= 99 && q * 100 + r <= i32::MAX ==> (resolve_year(
            None,
            Some(q),
            Some(r),
        ) matches Ok(Some(x)) && x / 100 == q && x % 100 == r),
        0 <= r <= 99 ==> (resolve_year(None, None, Some(r)) matches Ok(Some(x)) && 1970 <= x
            <= 2069 && x % 100 == r),
{
}

/// The year of an RFC 2822 date: two digits give the year from 1950 to
/// 2049 with that remainder modulo 100, three digits are counted from
/// 1900, and four or more give the year as written.
pub proof fn lemma_rfc2822_year(v: int, len: int)
    requires
        0 <= v,
        len == 2 ==> v <= 99,
    ensures
        len == 2 ==> 1950 <= year_2822(v, len) <= 2049 && year_2822(v, len) % 100 == v,
        len == 3 ==> year_2822(v, len) == v + 1900,
        len >= 4 ==> year_2822(v, len) == v,
{
}

/// Whether the day of the week read, if any, is that of day number `n`.
pub open spec fn weekday_agrees(p: Parsed, n: int) -> bool {
    p.weekday matches Some(w) ==> w == weekday_from_index(weekday_index(n))
}

/// Whether the year, month and day read, if any, are those of the date `d`.
pub open spec fn ymd_agrees(p: Parsed, d: (int, int, int)) -> bool {
    &&& (p.year matches Some(y) ==> y == d.0)
    &&& (p.year_div_100 matches Some(q) ==> d.0 >= 0 && q == d.0 / 100)
    &&& (p.year_mod_100 matches Some(r) ==> d.0 >= 0 && r == d.0 % 100)
    &&& (p.month matches Some(m) ==> m == d.1)
    &&& (p.day matches Some(x) ==> x == d.2)
}

/// The week of day number `n`, whose day of the year is `o`, counting weeks
/// that start on Sunday from week 0.
pub open spec fn week_from_sun_of(o: int, n: int) -> int {
    (o - (weekday_index(n) + 1) % 7 + 7) / 7
}

/// The week of day number `n`, whose day of the year is `o`, counting weeks
/// that start on Monday from week 0.
pub open spec fn week_from_mon_of(o: int, n: int) -> int {
    (o - weekday_index(n) + 7) / 7
}

/// Whether the day of the year and the week numbers read, if any, are those
/// of the date `d` with day number `n`.
pub open spec fn ordinal_agrees(p: Parsed, d: (int, int, int), n: int) -> bool {
    let o = ordinal_of(d.0, d.1, d.2);
    &&& (p.ordinal matches Some(x) ==> x == o)
    &&& (p.week_from_sun matches Some(x) ==> x == week_from_sun_of(o, n))
    &&& (p.week_from_mon matches Some(x) ==> x == week_from_mon_of(o, n))
}

/// Whether the ISO 8601 week date fields read, if any, are those of day
/// number `n`.
pub open spec fn iso_agrees(p: Parsed, n: int) -> bool {
    let y = iso_year(n);
    &&& (p.isoyear matches Some(v) ==> v == y)
    &&& (p.isoyear_div_100 matches Some(q) ==> y >= 0 && q == y / 100)
    &&& (p.isoyear_mod_100 matches Some(r) ==> y >= 0 && r == y % 100)
    &&& (p.isoweek matches Some(w) ==> w == iso_week(n))
    &&& weekday_agrees(p, n)
}

/// The day number of the day `wd` days after Monday in week `w` of year
/// `y`, weeks starting on Sunday when `sunday` and on Monday otherwise, the
/// days before the first such day being in week 0.
pub open spec fn week_day_number(y: int, w: int, wd: int, sunday: bool) -> int {
    let start = year_start(y);
    let jan1 = weekday_index(start);
    let first = if sunday {
        (7 - (jan1 + 1) % 7) % 7
    } else {
        (7 - jan1) % 7
    };
    let off = if sunday {
        (wd + 1) % 7
    } else {
        wd
    };
    start + first + (w - 1) * 7 + off
}

/// The day number of the date that the fields name, before it is checked
/// against the other fields, tried in this order: a year with a month and
/// a day; a year with a day of the year; a year with a week starting on
/// Sunday and a day of the week; the same with weeks starting on Monday; an
/// ISO 8601 year, week and day of the week. The date must exist.
pub open spec fn date_candidate(p: Parsed) -> Result<int, ParseError> {
    match resolve_year(p.year, p.year_div_100, p.year_mod_100) {
        Err(e) => Err(e),
        Ok(gy) => match resolve_year(p.isoyear, p.isoyear_div_100, p.isoyear_mod_100) {
            Err(e) => Err(e),
            Ok(giy) => if gy is Some && p.month is Some && p.day is Some {
                let d = (gy->0, p.month->0 as int, p.day->0 as int);
                if !date_valid(d) {
                    Err(ParseError::OutOfRange)
                } else {
                    Ok(date_days(d))
                }
            } else if gy is Some && p.ordinal is Some {
                let y = gy->0;
                let o = p.ordinal->0 as int;
                if !(year_in_range(y) && 1 <= o <= days_in_year(y)) {
                    Err(ParseError::OutOfRange)
                } else {
                    Ok(year_start(y) + o - 1)
                }
            } else if gy is Some && p.weekday is Some && (p.week_from_sun is Some
                || p.week_from_mon is Some) {
                let y = gy->0;
                let sunday = p.week_from_sun is Some;
                let w: int = if sunday {
                    p.week_from_sun->0 as int
                } else {
                    p.week_from_mon->0 as int
                };
                let n = week_day_number(y, w, p.weekday->0.index(), sunday);
                if !year_in_range(y) || w > 53 || !day_held(n) || civil_from_days(n).0 != y {
                    Err(ParseError::OutOfRange)
                } else {
                    Ok(n)
                }
            } else if giy is Some && p.isoweek is Some && p.weekday is Some {
                let y = giy->0;
                let w = p.isoweek->0 as int;
                let n = isoywd_day(y, w, p.weekday->0.index());
                if !(1 <= w && first_thursday(y) + 7 * (w - 1) < year_start(y + 1)) || !day_held(
                    n,
                ) {
                    Err(ParseError::OutOfRange)
                } else {
                    Ok(n)
                }
            } else {
                Err(ParseError::NotEnough)
            },
        },
    }
}

/// Whether every date field read agrees with day number `n`.
pub open spec fn date_fields_agree(p: Parsed, n: int) -> bool {
    let d = civil_from_days(n);
    ymd_agrees(p, d) && iso_agrees(p, n) && ordinal_agrees(p, d, n)
}

/// The day number of the date the fields describe: the date they name,
/// which must agree with every other date field read.
pub open spec fn resolve_date(p: Parsed) -> Result<int, ParseError> {
    match date_candidate(p) {
        Err(e) => Err(e),
        Ok(n) => if date_fields_agree(p, n) {
            Ok(n)
        } else {
            Err(ParseError::Impossible)
        },
    }
}

/// The time of day the fields describe, as seconds from midnight and a
/// fraction: the hour and minute are needed, second and fraction default
/// to zero, and second 60 is a leap second.
pub open spec fn resolve_time(p: Parsed) -> Result<(int, int), ParseError> {
    if p.hour_div_12 is None {
        Err(ParseError::NotEnough)
    } else if p.hour_div_12->0 > 1 {
        Err(ParseError::OutOfRange)
    } else if p.hour_mod_12 is None {
        Err(ParseError::NotEnough)
    } else if p.hour_mod_12->0 > 11 {
        Err(ParseError::OutOfRange)
    } else if p.minute is None {
        Err(ParseError::NotEnough)
    } else if p.minute->0 > 59 {
        Err(ParseError::OutOfRange)
    } else {
        let hour = p.hour_div_12->0 * 12 + p.hour_mod_12->0;
        let sec: int = match p.second {
            Some(v) => v as int,
            None => 0,
        };
        if sec > 60 {
            Err(ParseError::OutOfRange)
        } else {
            let base: int = if sec == 60 {
                1_000_000_000
            } else {
                0
            };
            let shown: int = if sec == 60 {
                59
            } else {
                sec
            };
            let nano: Result<int, ParseError> = match p.nanosecond {
                Some(v) => if v > 999_999_999 {
                    Err(ParseError::OutOfRange)
                } else if p.second is None {
                    Err(ParseError::NotEnough)
                } else {
                    Ok(v as int)
                },
                None => Ok(0int),
            };
            match nano {
                Err(e) => Err(e),
                Ok(n) => Ok((hour * 3600 + p.minute->0 * 60 + shown, base + n)),
            }
        }
    }
}

/// The local date-time the fields describe; a problem with the date is
/// reported before one with the time.
pub open spec fn resolve_local(p: Parsed) -> Result<(int, int), ParseError> {
    match resolve_date(p) {
        Err(e) => Err(e),
        Ok(n) => match resolve_time(p) {
            Err(e) => Err(e),
            Ok(t) => Ok((n * 86400 + t.0, t.1)),
        },
    }
}

/// The UTC date-time and offset the fields describe: an offset is needed,
/// it must be less than a day, and the instant must be one that can be held.
pub open spec fn resolve_datetime(p: Parsed) -> Result<((int, int), int), ParseError> {
    if p.offset is None {
        Err(ParseError::NotEnough)
    } else {
        match resolve_local(p) {
            Err(e) => Err(e),
            Ok(local) => {
                let fix = p.offset->0 as int;
                if !offset_in_range(fix) {
                    Err(ParseError::OutOfRange)
                } else if !secs_in_range(local.0 - fix) {
                    Err(ParseError::OutOfRange)
                } else {
                    Ok((utc_of(local, fix), fix))
                }
            },
        }
    }
}

/// The UTC date-time, in a zone `fix` seconds ahead of UTC, that the
/// fields describe: an offset read must be that of the zone, and the
/// instant must be one that can be held.
pub open spec fn resolve_in_zone(p: Parsed, fix: int) -> Result<(int, int), ParseError> {
    match resolve_local(p) {
        Err(e) => Err(e),
        Ok(local) => if !secs_in_range(local.0 - fix) {
            Err(ParseError::OutOfRange)
        } else if p.offset matches Some(o) && o != fix {
            Err(ParseError::Impossible)
        } else {
            Ok(utc_of(local, fix))
        },
    }
}

/// What reading `s` in the format `fmt` in a zone `fix` seconds ahead of
/// UTC gives.
pub open spec fn zone_parse_spec(s: Seq<u8>, fmt: Seq<u8>, fix: int) -> Result<(int, int), ParseError> {
    match parse_spec(empty_parsed(), s, strftime_spec(fmt)) {
        Ok(p) => resolve_in_zone(p, fix),
        Err(e) => Err(e),
    }
}

/// Whether `r` is the result `e` describes: on success a date-time in the
/// zone `tz` at the UTC date-time given, otherwise the same error.
pub open spec fn zone_result_is<Tz: Offset>(
    r: Result<DateTime<Tz>, ParseError>,
    tz: Tz,
    e: Result<(int, int), ParseError>,
) -> bool {
    match r {
        Ok(dt) => dt@.1 == tz && e == Ok::<(int, int), ParseError>(dt@.0),
        Err(x) => e == Err::<(int, int), ParseError>(x),
    }
}

/// The view of the result of reading a date-time at a fixed offset.
pub open spec fn fixed_result_view(r: Result<DateTime<FixedOffset>, ParseError>) -> Result<
    ((int, int), int),
    ParseError,
> {
    match r {
        Ok(dt) => Ok((dt@.0, dt@.1@)),
        Err(e) => Err(e),
    }
}

/// Where reading stands: the position reached and the fields so far.
pub open spec fn st_view(st: Result<(usize, Parsed), ParseError>) -> Result<
    (int, Parsed),
    ParseError,
> {
    match st {
        Ok((i, p)) => Ok((i as int, p)),
        Err(e) => Err(e),
    }
}

/// Whether a reading state is within the text.
pub open spec fn st_ok(st: Result<(usize, Parsed), ParseError>, len: int) -> bool {
    st matches Ok((i, _)) ==> i <= len
}

/// Skips white space.
pub open spec fn st_space(st: Result<(int, Parsed), ParseError>, s: Seq<u8>) -> Result<
    (int, Parsed),
    ParseError,
> {
    match st {
        Ok((i, p)) => Ok((skip_spaces(s, i), p)),
        Err(e) => Err(e),
    }
}

/// Requires the byte `c`.
pub open spec fn st_char(st: Result<(int, Parsed), ParseError>, s: Seq<u8>, c: u8) -> Result<
    (int, Parsed),
    ParseError,
> {
    match st {
        Ok((i, p)) => match scan_char(s, i, c) {
            Ok(j) => Ok((j, p)),
            Err(e) => Err(e),
        },
        Err(e) => Err(e),
    }
}

/// Requires the bytes `lit`.
pub open spec fn st_literal(st: Result<(int, Parsed), ParseError>, s: Seq<u8>, lit: Seq<u8>) -> Result<
    (int, Parsed),
    ParseError,
> {
    match st {
        Ok((i, p)) => if i + lit.len() > s.len() {
            Err(ParseError::TooShort)
        } else if s.subrange(i, i + lit.len()) != lit {
            Err(ParseError::Invalid)
        } else {
            Ok((i + lit.len(), p))
        },
        Err(e) => Err(e),
    }
}

/// Reads between `min` and `max` digits into the field `k`.
pub open spec fn st_digits(
    st: Result<(int, Parsed), ParseError>,
    s: Seq<u8>,
    min: int,
    max: int,
    k: Numeric,
) -> Result<(int, Parsed), ParseError> {
    match st {
        Ok((i, p)) => match scan_number(s, i, min, max) {
            Ok((j, v)) => match set_numeric(p, k, v) {
                Ok(q) => Ok((j, q)),
                Err(e) => Err(e),
            },
            Err(e) => Err(e),
        },
        Err(e) => Err(e),
    }
}

/// Widest number read for a numeric field without a sign.
pub open spec fn numeric_width(k: Numeric) -> int {
    match k {
        Numeric::Year => 4,
        Numeric::IsoYear => 4,
        Numeric::Ordinal => 3,
        Numeric::Nanosecond => 9,
        Numeric::NumDaysFromSun => 1,
        Numeric::WeekdayFromMon => 1,
        _ => 2,
    }
}

/// Reads a numeric field after white space: a year or an ISO 8601 year may
/// carry a sign and then any number of digits, other fields take one digit
/// up to their width.
pub open spec fn st_numeric(st: Result<(int, Parsed), ParseError>, s: Seq<u8>, k: Numeric) -> Result<
    (int, Parsed),
    ParseError,
> {
    match st {
        Ok((i0, p)) => {
            let i = skip_spaces(s, i0);
            let r = if (k == Numeric::Year || k == Numeric::IsoYear) && i < s.len() && s[i] == 45 {
                match scan_number(s, i + 1, 1, s.len() as int) {
                    Ok((j, v)) => Ok((j, -v)),
                    Err(e) => Err(e),
                }
            } else if (k == Numeric::Year || k == Numeric::IsoYear) && i < s.len() && s[i] == 43 {
                scan_number(s, i + 1, 1, s.len() as int)
            } else {
                scan_number(s, i, 1, numeric_width(k))
            };
            match r {
                Ok((j, v)) => match set_numeric(p, k, v) {
                    Ok(q) => Ok((j, q)),
                    Err(e) => Err(e),
                },
                Err(e) => Err(e),
            }
        },
        Err(e) => Err(e),
    }
}

/// Reads an optional fraction of a second: a dot and digits.
pub open spec fn st_fraction(st: Result<(int, Parsed), ParseError>, s: Seq<u8>) -> Result<
    (int, Parsed),
    ParseError,
> {
    match st {
        Ok((i, p)) => if i < s.len() && s[i] == 46 {
            match scan_nanosecond(s, i + 1) {
                Ok((j, v)) => match set_numeric(p, Numeric::Nanosecond, v) {
                    Ok(q) => Ok((j, q)),
                    Err(e) => Err(e),
                },
                Err(e) => Err(e),
            }
        } else {
            Ok((i, p))
        },
        Err(e) => Err(e),
    }
}

/// Reads an offset; `zulu` also accepts `Z`, `colon` says what may separate
/// hours and minutes, `skip` skips white space first.
pub open spec fn st_offset(
    st: Result<(int, Parsed), ParseError>,
    s: Seq<u8>,
    zulu: bool,
    colon: Colon,
    skip: bool,
) -> Result<(int, Parsed), ParseError> {
    match st {
        Ok((i0, p)) => {
            let i = if skip {
                skip_spaces(s, i0)
            } else {
                i0
            };
            let r = if zulu {
                scan_offset_zulu(s, i, colon)
            } else {
                scan_offset(s, i, colon)
            };
            match r {
                Ok((j, v)) => match set_offset(p, v) {
                    Ok(q) => Ok((j, q)),
                    Err(e) => Err(e),
                },
                Err(e) => Err(e),
            }
        },
        Err(e) => Err(e),
    }
}

/// Requires the text to end here.
pub open spec fn st_end(st: Result<(int, Parsed), ParseError>, s: Seq<u8>) -> Result<
    Parsed,
    ParseError,
> {
    match st {
        Ok((i, p)) => if i < s.len() {
            Err(ParseError::TooLong)
        } else {
            Ok(p)
        },
        Err(e) => Err(e),
    }
}

/// Requires `T` or `t`.
pub open spec fn st_t(st: Result<(int, Parsed), ParseError>, s: Seq<u8>) -> Result<
    (int, Parsed),
    ParseError,
> {
    match st {
        Ok((i, p)) => if i >= s.len() {
            Err(ParseError::TooShort)
        } else if s[i] != 84 && s[i] != 116 {
            Err(ParseError::Invalid)
        } else {
            Ok((i + 1, p))
        },
        Err(e) => Err(e),
    }
}

/// Requires a recorded offset to be less than a day either way.
pub open spec fn st_offset_range(st: Result<(int, Parsed), ParseError>) -> Result<
    (int, Parsed),
    ParseError,
> {
    match st {
        Ok((i, p)) => if p.offset matches Some(o) && !offset_in_range(o as int) {
            Err(ParseError::OutOfRange)
        } else {
            Ok((i, p))
        },
        Err(e) => Err(e),
    }
}

/// RFC 3339 from `st`: `YYYY-MM-DDTHH:MM:SS[.fff](Z|+HH:MM)`.
pub open spec fn st_rfc3339(st: Result<(int, Parsed), ParseError>, s: Seq<u8>) -> Result<
    (int, Parsed),
    ParseError,
> {
    let a = st_digits(st, s, 4, 4, Numeric::Year);
    let a = st_char(a, s, 45u8);
    let a = st_digits(a, s, 2, 2, Numeric::Month);
    let a = st_char(a, s, 45u8);
    let a = st_digits(a, s, 2, 2, Numeric::Day);
    let a = st_t(a, s);
    let a = st_digits(a, s, 2, 2, Numeric::Hour);
    let a = st_char(a, s, 58u8);
    let a = st_digits(a, s, 2, 2, Numeric::Minute);
    let a = st_char(a, s, 58u8);
    let a = st_digits(a, s, 2, 2, Numeric::Second);
    let a = st_fraction(a, s);
    let a = st_offset(a, s, true, Colon::Exact, false);
    st_offset_range(a)
}

/// Requires white space.
pub open spec fn st_space_req(st: Result<(int, Parsed), ParseError>, s: Seq<u8>) -> Result<
    (int, Parsed),
    ParseError,
> {
    match st {
        Ok((i, p)) => match scan_space(s, i) {
            Ok(j) => Ok((j, p)),
            Err(e) => Err(e),
        },
        Err(e) => Err(e),
    }
}

/// Fails with `e` unless reading has already failed.
pub open spec fn st_fail(st: Result<(int, Parsed), ParseError>, e: ParseError) -> Result<
    (int, Parsed),
    ParseError,
> {
    match st {
        Ok(_) => Err(e),
        Err(e0) => Err(e0),
    }
}

/// Reads the short name of a day of the week.
pub open spec fn st_weekday_name(st: Result<(int, Parsed), ParseError>, s: Seq<u8>) -> Result<
    (int, Parsed),
    ParseError,
> {
    match st {
        Ok((i, p)) => match scan_short_weekday(s, i) {
            Ok((j, w)) => match set_weekday(p, weekday_from_index(w)) {
                Ok(q) => Ok((j, q)),
                Err(e) => Err(e),
            },
            Err(e) => Err(e),
        },
        Err(e) => Err(e),
    }
}

/// Reads the short name of a month.
pub open spec fn st_month_name(st: Result<(int, Parsed), ParseError>, s: Seq<u8>) -> Result<
    (int, Parsed),
    ParseError,
> {
    match st {
        Ok((i, p)) => match scan_short_month(s, i) {
            Ok((j, m)) => match set_numeric(p, Numeric::Month, m) {
                Ok(q) => Ok((j, q)),
                Err(e) => Err(e),
            },
            Err(e) => Err(e),
        },
        Err(e) => Err(e),
    }
}

/// Reads the short or full name of a day of the week.
pub open spec fn st_long_weekday(st: Result<(int, Parsed), ParseError>, s: Seq<u8>) -> Result<
    (int, Parsed),
    ParseError,
> {
    match st {
        Ok((i, p)) => match scan_long_weekday(s, i) {
            Ok((j, w)) => match set_weekday(p, weekday_from_index(w)) {
                Ok(q) => Ok((j, q)),
                Err(e) => Err(e),
            },
            Err(e) => Err(e),
        },
        Err(e) => Err(e),
    }
}

/// Reads the short or full name of a month.
pub open spec fn st_long_month(st: Result<(int, Parsed), ParseError>, s: Seq<u8>) -> Result<
    (int, Parsed),
    ParseError,
> {
    match st {
        Ok((i, p)) => match scan_long_month(s, i) {
            Ok((j, m)) => match set_numeric(p, Numeric::Month, m) {
                Ok(q) => Ok((j, q)),
                Err(e) => Err(e),
            },
            Err(e) => Err(e),
        },
        Err(e) => Err(e),
    }
}

/// Reads `am` or `pm`.
pub open spec fn st_ampm(st: Result<(int, Parsed), ParseError>, s: Seq<u8>) -> Result<
    (int, Parsed),
    ParseError,
> {
    match st {
        Ok((i, p)) => match scan_ampm(s, i) {
            Ok((j, pm)) => match set_ampm(p, pm) {
                Ok(q) => Ok((j, q)),
                Err(e) => Err(e),
            },
            Err(e) => Err(e),
        },
        Err(e) => Err(e),
    }
}

/// Reads the optional day of the week of RFC 2822: a short name directly
/// followed by a comma. Text that does not start with a name is left as it
/// is; a name without the comma is an error.
pub open spec fn st_rfc2822_weekday(st: Result<(int, Parsed), ParseError>, s: Seq<u8>) -> Result<
    (int, Parsed),
    ParseError,
> {
    match st {
        Ok((i, p)) => match scan_short_weekday(s, i) {
            Err(_) => Ok((i, p)),
            Ok((j, w)) => if j < s.len() && s[j] == 44 {
                match set_weekday(p, weekday_from_index(w)) {
                    Ok(q) => Ok((j + 1, q)),
                    Err(e) => Err(e),
                }
            } else {
                Err(ParseError::Invalid)
            },
        },
        Err(e) => Err(e),
    }
}

/// The year an RFC 2822 year of `len` digits stands for: two-digit years
/// below 50 are in the 2000s, other two-digit and all three-digit years in
/// the 1900s, longer ones as written.
pub open spec fn year_2822(v: int, len: int) -> int {
    if len == 2 && v < 50 {
        v + 2000
    } else if len == 2 || len == 3 {
        v + 1900
    } else {
        v
    }
}

/// Reads an RFC 2822 year of at least two digits.
pub open spec fn st_year_2822(st: Result<(int, Parsed), ParseError>, s: Seq<u8>) -> Result<
    (int, Parsed),
    ParseError,
> {
    match st {
        Ok((i, p)) => match scan_number(s, i, 2, s.len() as int) {
            Ok((j, v)) => match set_numeric(p, Numeric::Year, year_2822(v, j - i)) {
                Ok(q) => Ok((j, q)),
                Err(e) => Err(e),
            },
            Err(e) => Err(e),
        },
        Err(e) => Err(e),
    }
}

/// Reads the optional seconds of RFC 2822: white space, a colon, white
/// space and two digits. Without the colon the text is left as it is.
pub open spec fn st_opt_seconds(st: Result<(int, Parsed), ParseError>, s: Seq<u8>) -> Result<
    (int, Parsed),
    ParseError,
> {
    match st {
        Ok((i, p)) => {
            let k = skip_spaces(s, i);
            if k < s.len() && s[k] == 58 {
                st_digits(Ok((skip_spaces(s, k + 1), p)), s, 2, 2, Numeric::Second)
            } else {
                Ok((i, p))
            }
        },
        Err(e) => Err(e),
    }
}

/// Reads an RFC 2822 zone, recording its offset when it is known.
pub open spec fn st_zone_2822(st: Result<(int, Parsed), ParseError>, s: Seq<u8>) -> Result<
    (int, Parsed),
    ParseError,
> {
    match st {
        Ok((i, p)) => match scan_zone_2822(s, i) {
            Ok((j, Some(v))) => match set_offset(p, v) {
                Ok(q) => Ok((j, q)),
                Err(e) => Err(e),
            },
            Ok((j, None)) => Ok((j, p)),
            Err(e) => Err(e),
        },
        Err(e) => Err(e),
    }
}

/// RFC 2822 from `st`: `[Wed,] 18 Feb 2015 23:16[:09] +0000`, with white
/// space allowed around the parts, names in any case, and a zone given as
/// an offset or by name.
pub open spec fn st_rfc2822(st: Result<(int, Parsed), ParseError>, s: Seq<u8>) -> Result<
    (int, Parsed),
    ParseError,
> {
    let a = st_space(st, s);
    let a = st_rfc2822_weekday(a, s);
    let a = st_space(a, s);
    let a = st_digits(a, s, 1, 2, Numeric::Day);
    let a = st_space_req(a, s);
    let a = st_month_name(a, s);
    let a = st_space_req(a, s);
    let a = st_year_2822(a, s);
    let a = st_space_req(a, s);
    let a = st_digits(a, s, 2, 2, Numeric::Hour);
    let a = st_space(a, s);
    let a = st_char(a, s, 58u8);
    let a = st_space(a, s);
    let a = st_digits(a, s, 2, 2, Numeric::Minute);
    let a = st_opt_seconds(a, s);
    let a = st_space_req(a, s);
    st_zone_2822(a, s)
}

/// Reads a piece of fixed form. An offset name cannot be read.
pub open spec fn st_fixed(st: Result<(int, Parsed), ParseError>, s: Seq<u8>, f: Fixed) -> Result<
    (int, Parsed),
    ParseError,
> {
    match f {
        Fixed::ShortMonthName => st_month_name(st, s),
        Fixed::LongMonthName => st_long_month(st, s),
        Fixed::ShortWeekdayName => st_weekday_name(st, s),
        Fixed::LongWeekdayName => st_long_weekday(st, s),
        Fixed::LowerAmPm => st_ampm(st, s),
        Fixed::UpperAmPm => st_ampm(st, s),
        Fixed::Nanosecond => st_fraction(st, s),
        Fixed::Nanosecond3 => st_fraction(st, s),
        Fixed::Nanosecond6 => st_fraction(st, s),
        Fixed::Nanosecond9 => st_fraction(st, s),
        Fixed::TimezoneName => st_fail(st, ParseError::BadFormat),
        Fixed::TimezoneOffsetColon => st_offset(st, s, false, Colon::Loose, true),
        Fixed::TimezoneOffset => st_offset(st, s, false, Colon::Loose, true),
        Fixed::TimezoneOffsetColonZ => st_offset(st, s, true, Colon::Loose, true),
        Fixed::TimezoneOffsetZ => st_offset(st, s, true, Colon::Loose, true),
        Fixed::RFC2822 => st_rfc2822(st, s),
        Fixed::RFC3339 => st_rfc3339(st, s),
    }
}

/// Reads one item: a literal must appear as it is, a space item skips white
/// space, a number is read after white space, and an error item fails.
pub open spec fn st_item(st: Result<(int, Parsed), ParseError>, s: Seq<u8>, it: ItemView) -> Result<
    (int, Parsed),
    ParseError,
> {
    match it {
        ItemView::Literal(lit) => st_literal(st, s, lit),
        ItemView::Space(_) => st_space(st, s),
        ItemView::Numeric(k, _) => st_numeric(st, s, k),
        ItemView::Fixed(f) => st_fixed(st, s, f),
        ItemView::Error => st_fail(st, ParseError::BadFormat),
    }
}

/// Reads the items one after the other.
pub open spec fn st_items(st: Result<(int, Parsed), ParseError>, s: Seq<u8>, items: Seq<ItemView>) -> Result<
    (int, Parsed),
    ParseError,
>
    decreases items.len(),
{
    if items.len() == 0 {
        st
    } else {
        st_item(st_items(st, s, items.drop_last()), s, items.last())
    }
}

/// The fields `p` with what reading all of `s` with `items` adds to them.
pub open spec fn parse_spec(p: Parsed, s: Seq<u8>, items: Seq<ItemView>) -> Result<
    Parsed,
    ParseError,
> {
    st_end(st_items(Ok((0, p)), s, items), s)
}

/// What reading the RFC 2822 text `s` gives.
pub open spec fn rfc2822_spec(s: Seq<u8>) -> Result<((int, int), int), ParseError> {
    match st_end(st_rfc2822(st_start(), s), s) {
        Ok(p) => resolve_datetime(p),
        Err(e) => Err(e),
    }
}

/// What reading `s` in the format `fmt` at the offset it states gives.
pub open spec fn format_parse_spec(s: Seq<u8>, fmt: Seq<u8>) -> Result<((int, int), int), ParseError> {
    match parse_spec(empty_parsed(), s, strftime_spec(fmt)) {
        Ok(p) => resolve_datetime(p),
        Err(e) => Err(e),
    }
}

/// The fields with nothing read yet.
pub open spec fn empty_parsed() -> Parsed {
    Parsed {
        year: None,
        year_div_100: None,
        year_mod_100: None,
        month: None,
        day: None,
        ordinal: None,
        week_from_sun: None,
        week_from_mon: None,
        isoyear: None,
        isoyear_div_100: None,
        isoyear_mod_100: None,
        isoweek: None,
        hour_div_12: None,
        hour_mod_12: None,
        minute: None,
        second: None,
        nanosecond: None,
        offset: None,
        weekday: None,
    }
}

/// The start of reading a text.
pub open spec fn st_start() -> Result<(int, Parsed), ParseError> {
    Ok((0int, empty_parsed()))
}

/// What reading the RFC 3339 text `s` gives.
pub open spec fn rfc3339_spec(s: Seq<u8>) -> Result<((int, int), int), ParseError> {
    match st_end(st_rfc3339(st_start(), s), s) {
        Ok(p) => resolve_datetime(p),
        Err(e) => Err(e),
    }
}

/// The fields read from `s` in the form `YYYY-MM-DDTHH:MM:SS[.fff](Z|+HH:MM)`,
/// with white space allowed between the parts and the numbers not padded.
pub open spec fn iso_str_fields(s: Seq<u8>) -> Result<Parsed, ParseError> {
    let a = st_space(st_start(), s);
    let a = st_numeric(a, s, Numeric::Year);
    let a = st_space(a, s);
    let a = st_char(a, s, 45u8);
    let a = st_space(a, s);
    let a = st_numeric(a, s, Numeric::Month);
    let a = st_space(a, s);
    let a = st_char(a, s, 45u8);
    let a = st_space(a, s);
    let a = st_numeric(a, s, Numeric::Day);
    let a = st_space(a, s);
    let a = st_char(a, s, 84u8);
    let a = st_space(a, s);
    let a = st_numeric(a, s, Numeric::Hour);
    let a = st_space(a, s);
    let a = st_char(a, s, 58u8);
    let a = st_space(a, s);
    let a = st_numeric(a, s, Numeric::Minute);
    let a = st_space(a, s);
    let a = st_char(a, s, 58u8);
    let a = st_space(a, s);
    let a = st_numeric(a, s, Numeric::Second);
    let a = st_fraction(a, s);
    let a = st_space(a, s);
    let a = st_offset(a, s, true, Colon::Loose, true);
    let a = st_space(a, s);
    st_end(a, s)
}

/// What reading `s` in the form that `iso_str_fields` reads gives.
pub open spec fn iso_str_spec(s: Seq<u8>) -> Result<((int, int), int), ParseError> {
    match iso_str_fields(s) {
        Ok(p) => resolve_datetime(p),
        Err(e) => Err(e),
    }
}

impl Parsed {
    /// No field read yet.
    pub fn new() -> (r: Parsed)
        ensures
            r == empty_parsed(),
    {
        Parsed {
            year: None,
            year_div_100: None,
            year_mod_100: None,
            month: None,
            day: None,
            ordinal: None,
            week_from_sun: None,
            week_from_mon: None,
            isoyear: None,
            isoyear_div_100: None,
            isoyear_mod_100: None,
            isoweek: None,
            hour_div_12: None,
            hour_mod_12: None,
            minute: None,
            second: None,
            nanosecond: None,
            offset: None,
            weekday: None,
        }
    }

    /// Whether the day of the week read, if any, is `w`.
    fn weekday_agrees_at(&self, w: Weekday) -> (r: bool)
        ensures
            r == (self.weekday matches Some(x) ==> x == w),
    {
        match self.weekday {
            Some(x) => x == w,
            None => true,
        }
    }

    /// Whether the year, month and day read, if any, are those of `date`.
    fn ymd_agrees_at(&self, date: &NaiveDate) -> (r: bool)
        ensures
            r == ymd_agrees(*self, date@),
    {
        let y = date.year();
        let year_ok = match self.year {
            Some(v) => v == y,
            None => true,
        };
        let div_ok = match self.year_div_100 {
            Some(q) => y >= 0 && q == y / 100,
            None => true,
        };
        let mod_ok = match self.year_mod_100 {
            Some(r) => y >= 0 && r == y % 100,
            None => true,
        };
        let month_ok = match self.month {
            Some(v) => v == date.month(),
            None => true,
        };
        let day_ok = match self.day {
            Some(v) => v == date.day(),
            None => true,
        };
        year_ok && div_ok && mod_ok && month_ok && day_ok
    }

    /// Whether the day of the year and week numbers read, if any, are those
    /// of `date`.
    fn ordinal_agrees_at(&self, date: &NaiveDate) -> (r: bool)
        ensures
            r == ordinal_agrees(*self, date@, date_days(date@)),
    {
        let o = date.ordinal();
        let wd = date.weekday().num_days_from_monday();
        proof {
            use_type_invariant(date);
            date.lemma_inv();
            crate::calendar::lemma_ordinal_bounds(date@.0, date@.1, date@.2);
        }
        let ordinal_ok = match self.ordinal {
            Some(v) => v == o,
            None => true,
        };
        let sun_ok = match self.week_from_sun {
            Some(v) => v == (o + 7 - (wd + 1) % 7) / 7,
            None => true,
        };
        let mon_ok = match self.week_from_mon {
            Some(v) => v == (o + 7 - wd) / 7,
            None => true,
        };
        ordinal_ok && sun_ok && mon_ok
    }

    /// Whether the ISO 8601 week date fields read, if any, are those of
    /// `date`.
    fn iso_agrees_at(&self, date: &NaiveDate) -> (r: bool)
        ensures
            r == iso_agrees(*self, date_days(date@)),
    {
        let (y, w, wd) = date.isoweekdate();
        let year_ok = match self.isoyear {
            Some(v) => v == y,
            None => true,
        };
        let div_ok = match self.isoyear_div_100 {
            Some(q) => y >= 0 && q == y / 100,
            None => true,
        };
        let mod_ok = match self.isoyear_mod_100 {
            Some(r) => y >= 0 && r == y % 100,
            None => true,
        };
        let week_ok = match self.isoweek {
            Some(v) => v == w,
            None => true,
        };
        year_ok && div_ok && mod_ok && week_ok && self.weekday_agrees_at(wd)
    }

    /// The date the fields name, before it is checked against the other
    /// fields.
    fn date_candidate_of(&self) -> (r: Result<NaiveDate, ParseError>)
        ensures
            match r {
                Ok(d) => date_candidate(*self) == Ok::<int, ParseError>(date_days(d@)),
                Err(e) => date_candidate(*self) == Err::<int, ParseError>(e),
            },
    {
        let gy = match resolve_year_of(self.year, self.year_div_100, self.year_mod_100) {
            Ok(v) => v,
            Err(e) => {
                return Err(e);
            },
        };
        let giy = match resolve_year_of(self.isoyear, self.isoyear_div_100, self.isoyear_mod_100) {
            Ok(v) => v,
            Err(e) => {
                return Err(e);
            },
        };
        if let (Some(year), Some(m), Some(d)) = (gy, self.month, self.day) {
            match NaiveDate::from_ymd_opt(year, m, d) {
                Some(date) => Ok(date),
                None => Err(ParseError::OutOfRange),
            }
        } else if let (Some(year), Some(o)) = (gy, self.ordinal) {
            match NaiveDate::from_yo_opt(year, o) {
                Some(date) => {
                    proof {
                        use_type_invariant(&date);
                        date.lemma_inv();
                    }
                    Ok(date)
                },
                None => Err(ParseError::OutOfRange),
            }
        } else if let (Some(year), Some(wd), true) = (
            gy,
            self.weekday,
            self.week_from_sun.is_some() || self.week_from_mon.is_some(),
        ) {
            let sunday = self.week_from_sun.is_some();
            let w = match (self.week_from_sun, self.week_from_mon) {
                (Some(v), _) => v,
                (None, Some(v)) => v,
                (None, None) => 0,
            };
            if year < MIN_YEAR || year > MAX_YEAR || w > 53 {
                return Err(ParseError::OutOfRange);
            }
            let date = match week_date(year, w, wd.num_days_from_monday(), sunday) {
                Some(date) => date,
                None => {
                    return Err(ParseError::OutOfRange);
                },
            };
            proof {
                use_type_invariant(&date);
                date.lemma_inv();
                lemma_civil_from_days(date@.0, date@.1, date@.2);
            }
            if date.year() != year {
                return Err(ParseError::OutOfRange);
            }
            Ok(date)
        } else if let (Some(year), Some(w), Some(wd)) = (giy, self.isoweek, self.weekday) {
            match NaiveDate::from_isoywd_opt(year, w, wd) {
                Some(date) => Ok(date),
                None => Err(ParseError::OutOfRange),
            }
        } else {
            Err(ParseError::NotEnough)
        }
    }

    /// The date the fields describe.
    pub fn to_naive_date(&self) -> (r: Result<NaiveDate, ParseError>)
        ensures
            match r {
                Ok(d) => resolve_date(*self) == Ok::<int, ParseError>(date_days(d@)),
                Err(e) => resolve_date(*self) == Err::<int, ParseError>(e),
            },
    {
        let date = match self.date_candidate_of() {
            Ok(date) => date,
            Err(e) => {
                return Err(e);
            },
        };
        proof {
            use_type_invariant(&date);
            date.lemma_inv();
            lemma_civil_from_days(date@.0, date@.1, date@.2);
        }
        if !self.ymd_agrees_at(&date) || !self.iso_agrees_at(&date) || !self.ordinal_agrees_at(
            &date,
        ) {
            return Err(ParseError::Impossible);
        }
        Ok(date)
    }

    /// The time of day the fields describe.
    pub fn to_naive_time(&self) -> (r: Result<NaiveTime, ParseError>)
        ensures
            match r {
                Ok(t) => resolve_time(*self) == Ok::<(int, int), ParseError>(t@),
                Err(e) => resolve_time(*self) == Err::<(int, int), ParseError>(e),
            },
    {
        let hour_div_12 = match self.hour_div_12 {
            Some(v) => {
                if v > 1 {
                    return Err(ParseError::OutOfRange);
                }
                v
            },
            None => {
                return Err(ParseError::NotEnough);
            },
        };
        let hour_mod_12 = match self.hour_mod_12 {
            Some(v) => {
                if v > 11 {
                    return Err(ParseError::OutOfRange);
                }
                v
            },
            None => {
                return Err(ParseError::NotEnough);
            },
        };
        let hour = hour_div_12 * 12 + hour_mod_12;
        let minute = match self.minute {
            Some(m) => m,
            None => {
                return Err(ParseError::NotEnough);
            },
        };
        if minute > 59 {
            return Err(ParseError::OutOfRange);
        }
        let sec: u32 = match self.second {
            Some(v) => v,
            None => 0,
        };
        if sec > 60 {
            return Err(ParseError::OutOfRange);
        }
        let (shown, base): (u32, u32) = if sec == 60 {
            (59, 1_000_000_000)
        } else {
            (sec, 0)
        };
        let nano: u32 = match self.nanosecond {
            Some(v) => {
                if v > 999_999_999 {
                    return Err(ParseError::OutOfRange);
                }
                if self.second.is_none() {
                    return Err(ParseError::NotEnough);
                }
                v
            },
            None => 0,
        };
        match NaiveTime::from_hms_nano_opt(hour, minute, shown, base + nano) {
            Some(t) => Ok(t),
            None => Err(ParseError::OutOfRange),
        }
    }

    /// The local date-time the fields describe.
    pub fn to_naive_datetime(&self) -> (r: Result<NaiveDateTime, ParseError>)
        ensures
            match r {
                Ok(v) => resolve_local(*self) == Ok::<(int, int), ParseError>(v@),
                Err(e) => resolve_local(*self) == Err::<(int, int), ParseError>(e),
            },
    {
        let date = self.to_naive_date();
        let time = self.to_naive_time();
        match (date, time) {
            (Ok(d), Ok(t)) => Ok(d.and_time(t)),
            (Err(e), _) => Err(e),
            (Ok(_), Err(e)) => Err(e),
        }
    }

    /// The date-time at a fixed offset the fields describe.
    pub fn to_datetime(&self) -> (r: Result<DateTime<FixedOffset>, ParseError>)
        ensures
            fixed_result_view(r) == resolve_datetime(*self),
    {
        let off = match self.offset {
            Some(o) => o,
            None => {
                return Err(ParseError::NotEnough);
            },
        };
        let local = match self.to_naive_datetime() {
            Ok(v) => v,
            Err(e) => {
                return Err(e);
            },
        };
        let fixed = match FixedOffset::east_opt(off) {
            Some(f) => f,
            None => {
                return Err(ParseError::OutOfRange);
            },
        };
        match DateTime::from_local(&local, fixed) {
            Some(dt) => Ok(dt),
            None => Err(ParseError::OutOfRange),
        }
    }
}

impl Parsed {
    /// The date-time in the zone `tz` the fields describe; an offset read
    /// must be that of the zone.
    pub fn to_datetime_with_timezone<Tz: Offset>(&self, tz: &Tz) -> (r: Result<DateTime<Tz>, ParseError>)
        ensures
            zone_result_is(r, *tz, resolve_in_zone(*self, tz.fix_spec())),
    {
        let local = match self.to_naive_datetime() {
            Ok(v) => v,
            Err(e) => {
                return Err(e);
            },
        };
        let fix = tz.local_minus_utc();
        match DateTime::from_local(&local, *tz) {
            Some(dt) => {
                if let Some(o) = self.offset {
                    if o != fix {
                        return Err(ParseError::Impossible);
                    }
                }
                Ok(dt)
            },
            None => Err(ParseError::OutOfRange),
        }
    }
}

impl UTC {
    /// Parses `s` in the `strftime`-style format `fmt` as a date-time in
    /// UTC; an offset in the text must be zero.
    pub fn datetime_from_str(&self, s: &str, fmt: &str) -> (r: Result<DateTime<UTC>, ParseError>)
        ensures
            zone_result_is(r, *self, zone_parse_spec(s.spec_bytes(), fmt.spec_bytes(), 0)),
    {
        let items = strftime_items(fmt);
        match parse(Parsed::new(), s, items.as_slice()) {
            Ok(p) => p.to_datetime_with_timezone(self),
            Err(e) => Err(e),
        }
    }
}

impl FixedOffset {
    /// Parses `s` in the `strftime`-style format `fmt` as a date-time at
    /// this offset; an offset in the text must be this one.
    pub fn datetime_from_str(&self, s: &str, fmt: &str) -> (r: Result<DateTime<FixedOffset>, ParseError>)
        ensures
            zone_result_is(r, *self, zone_parse_spec(s.spec_bytes(), fmt.spec_bytes(), self@)),
    {
        let items = strftime_items(fmt);
        match parse(Parsed::new(), s, items.as_slice()) {
            Ok(p) => p.to_datetime_with_timezone(self),
            Err(e) => Err(e),
        }
    }
}

/// The full year given by a year, a year divided by 100 and a year modulo
/// 100.
fn resolve_year_of(y: Option<i32>, q: Option<i32>, r: Option<i32>) -> (res: Result<
    Option<i32>,
    ParseError,
>)
    ensures
        match res {
            Ok(Some(v)) => resolve_year(y, q, r) == Ok::<Option<int>, ParseError>(Some(v as int)),
            Ok(None) => resolve_year(y, q, r) == Ok::<Option<int>, ParseError>(None),
            Err(e) => resolve_year(y, q, r) == Err::<Option<int>, ParseError>(e),
        },
{
    match (y, q, r) {
        (y, None, None) => Ok(y),
        (Some(y), q, r) if r.is_none() || (0 <= r.unwrap() && r.unwrap() <= 99) => {
            if y < 0 {
                return Err(ParseError::OutOfRange);
            }
            let q_ok = match q {
                Some(v) => v == y / 100,
                None => true,
            };
            let r_ok = match r {
                Some(v) => v == y % 100,
                None => true,
            };
            if q_ok && r_ok {
                Ok(Some(y))
            } else {
                Err(ParseError::Impossible)
            }
        },
        (None, Some(q), Some(r)) if 0 <= r && r <= 99 => {
            if q < 0 {
                return Err(ParseError::OutOfRange);
            }
            if q as i64 * 100 + r as i64 > i32::MAX as i64 {
                return Err(ParseError::OutOfRange);
            }
            Ok(Some(q * 100 + r))
        },
        (None, None, Some(r)) if 0 <= r && r <= 99 => Ok(Some(
            r + if r < 70 {
                2000
            } else {
                1900
            },
        )),
        (None, Some(_), None) => Err(ParseError::NotEnough),
        _ => Err(ParseError::OutOfRange),
    }
}

/// The date of the day `wd` days after Monday in week `w` of `year`, weeks
/// starting on Sunday when `sunday` and on Monday otherwise, if it can be
/// held.
fn week_date(year: i32, w: u32, wd: u32, sunday: bool) -> (r: Option<NaiveDate>)
    requires
        year_in_range(year as int),
        w <= 53,
        wd < 7,
    ensures
        r is Some <==> day_held(week_day_number(year as int, w as int, wd as int, sunday)),
        r matches Some(d) ==> date_days(d@) == week_day_number(
            year as int,
            w as int,
            wd as int,
            sunday,
        ),
{
    proof {
        crate::calendar::lemma_year_start_mono(MIN_YEAR - 1, year as int);
        crate::calendar::lemma_year_start_mono(year as int, MAX_YEAR + 2);
    }
    let start = year_start_of(year);
    let jan1 = weekday_of_days(start);
    let first: i64 = if sunday {
        ((7 - (jan1 + 1) % 7) % 7) as i64
    } else {
        ((7 - jan1) % 7) as i64
    };
    let off: i64 = if sunday {
        ((wd + 1) % 7) as i64
    } else {
        wd as i64
    };
    let n = start + first + (w as i64 - 1) * 7 + off;
    NaiveDate::from_num_days(n)
}

/// Records `v` in a field of type `i32`.
fn set_i32_at(cur: Option<i32>, v: i64) -> (r: Result<Option<i32>, ParseError>)
    ensures
        r == set_i32(cur, v as int),
{
    if v < i32::MIN as i64 || v > i32::MAX as i64 {
        return Err(ParseError::OutOfRange);
    }
    match cur {
        Some(c) => if c as i64 == v {
            Ok(cur)
        } else {
            Err(ParseError::Impossible)
        },
        None => Ok(Some(v as i32)),
    }
}

/// Records `v` in a field of type `u32`.
fn set_u32_at(cur: Option<u32>, v: i64) -> (r: Result<Option<u32>, ParseError>)
    ensures
        r == set_u32(cur, v as int),
{
    if v < 0 || v > u32::MAX as i64 {
        return Err(ParseError::OutOfRange);
    }
    match cur {
        Some(c) => if c as i64 == v {
            Ok(cur)
        } else {
            Err(ParseError::Impossible)
        },
        None => Ok(Some(v as u32)),
    }
}

/// Records the hour `v` of a 24-hour clock.
fn set_hour_at(p: Parsed, v: i64) -> (r: Result<Parsed, ParseError>)
    ensures
        r == set_hour(p, v as int),
{
    if v < 0 || v > u32::MAX as i64 {
        return Err(ParseError::OutOfRange);
    }
    match set_u32_at(p.hour_div_12, v / 12) {
        Err(e) => Err(e),
        Ok(d) => match set_u32_at(p.hour_mod_12, v % 12) {
            Err(e) => Err(e),
            Ok(m) => Ok(Parsed { hour_div_12: d, hour_mod_12: m, ..p }),
        },
    }
}

/// Records the number `v` read for the field `k`.
pub fn set_numeric_at(p: Parsed, k: Numeric, v: i64) -> (r: Result<Parsed, ParseError>)
    ensures
        r == set_numeric(p, k, v as int),
{
    match k {
        Numeric::Year => match set_i32_at(p.year, v) {
            Ok(f) => Ok(Parsed { year: f, ..p }),
            Err(e) => Err(e),
        },
        Numeric::YearDiv100 => if v < 0 {
            Err(ParseError::OutOfRange)
        } else {
            match set_i32_at(p.year_div_100, v) {
                Ok(f) => Ok(Parsed { year_div_100: f, ..p }),
                Err(e) => Err(e),
            }
        },
        Numeric::YearMod100 => if v < 0 {
            Err(ParseError::OutOfRange)
        } else {
            match set_i32_at(p.year_mod_100, v) {
                Ok(f) => Ok(Parsed { year_mod_100: f, ..p }),
                Err(e) => Err(e),
            }
        },
        Numeric::Month => match set_u32_at(p.month, v) {
            Ok(f) => Ok(Parsed { month: f, ..p }),
            Err(e) => Err(e),
        },
        Numeric::Day => match set_u32_at(p.day, v) {
            Ok(f) => Ok(Parsed { day: f, ..p }),
            Err(e) => Err(e),
        },
        Numeric::Ordinal => match set_u32_at(p.ordinal, v) {
            Ok(f) => Ok(Parsed { ordinal: f, ..p }),
            Err(e) => Err(e),
        },
        Numeric::WeekFromSun => match set_u32_at(p.week_from_sun, v) {
            Ok(f) => Ok(Parsed { week_from_sun: f, ..p }),
            Err(e) => Err(e),
        },
        Numeric::WeekFromMon => match set_u32_at(p.week_from_mon, v) {
            Ok(f) => Ok(Parsed { week_from_mon: f, ..p }),
            Err(e) => Err(e),
        },
        Numeric::IsoYear => match set_i32_at(p.isoyear, v) {
            Ok(f) => Ok(Parsed { isoyear: f, ..p }),
            Err(e) => Err(e),
        },
        Numeric::IsoYearDiv100 => if v < 0 {
            Err(ParseError::OutOfRange)
        } else {
            match set_i32_at(p.isoyear_div_100, v) {
                Ok(f) => Ok(Parsed { isoyear_div_100: f, ..p }),
                Err(e) => Err(e),
            }
        },
        Numeric::IsoYearMod100 => if v < 0 {
            Err(ParseError::OutOfRange)
        } else {
            match set_i32_at(p.isoyear_mod_100, v) {
                Ok(f) => Ok(Parsed { isoyear_mod_100: f, ..p }),
                Err(e) => Err(e),
            }
        },
        Numeric::IsoWeek => match set_u32_at(p.isoweek, v) {
            Ok(f) => Ok(Parsed { isoweek: f, ..p }),
            Err(e) => Err(e),
        },
        Numeric::Hour => set_hour_at(p, v),
        Numeric::Hour12 => if v < 1 || v > 12 {
            Err(ParseError::OutOfRange)
        } else {
            match set_u32_at(p.hour_mod_12, v % 12) {
                Ok(f) => Ok(Parsed { hour_mod_12: f, ..p }),
                Err(e) => Err(e),
            }
        },
        Numeric::Minute => match set_u32_at(p.minute, v) {
            Ok(f) => Ok(Parsed { minute: f, ..p }),
            Err(e) => Err(e),
        },
        Numeric::Second => match set_u32_at(p.second, v) {
            Ok(f) => Ok(Parsed { second: f, ..p }),
            Err(e) => Err(e),
        },
        Numeric::Nanosecond => match set_u32_at(p.nanosecond, v) {
            Ok(f) => Ok(Parsed { nanosecond: f, ..p }),
            Err(e) => Err(e),
        },
        Numeric::NumDaysFromSun => if 0 <= v && v <= 6 {
            set_weekday_at(p, Weekday::from_index(((v + 6) % 7) as u32))
        } else {
            Err(ParseError::OutOfRange)
        },
        Numeric::WeekdayFromMon => if 1 <= v && v <= 7 {
            set_weekday_at(p, Weekday::from_index((v - 1) as u32))
        } else {
            Err(ParseError::OutOfRange)
        },
    }
}

/// Records the half of the day: afternoon when `pm`.
pub fn set_ampm_at(p: Parsed, pm: bool) -> (r: Result<Parsed, ParseError>)
    ensures
        r == set_ampm(p, pm),
{
    match set_u32_at(p.hour_div_12, if pm {
        1
    } else {
        0
    }) {
        Ok(f) => Ok(Parsed { hour_div_12: f, ..p }),
        Err(e) => Err(e),
    }
}

/// Records the offset `v` in seconds.
pub fn set_offset_at(p: Parsed, v: i32) -> (r: Result<Parsed, ParseError>)
    ensures
        r == set_offset(p, v as int),
{
    match set_i32_at(p.offset, v as i64) {
        Ok(f) => Ok(Parsed { offset: f, ..p }),
        Err(e) => Err(e),
    }
}

/// Records the day of the week `w`.
pub fn set_weekday_at(p: Parsed, w: Weekday) -> (r: Result<Parsed, ParseError>)
    ensures
        r == set_weekday(p, w),
{
    match p.weekday {
        Some(c) => if c == w {
            Ok(p)
        } else {
            Err(ParseError::Impossible)
        },
        None => Ok(Parsed { weekday: Some(w), ..p }),
    }
}

/// Skips white space.
pub fn x_space(st: Result<(usize, Parsed), ParseError>, s: &[u8]) -> (r: Result<
    (usize, Parsed),
    ParseError,
>)
    requires
        st_ok(st, s@.len() as int),
    ensures
        st_view(r) == st_space(st_view(st), s@),
        st_ok(r, s@.len() as int),
{
    match st {
        Ok((i, p)) => Ok((skip_spaces_at(s, i), p)),
        Err(e) => Err(e),
    }
}

/// Requires the byte `c`.
pub fn x_char(st: Result<(usize, Parsed), ParseError>, s: &[u8], c: u8) -> (r: Result<
    (usize, Parsed),
    ParseError,
>)
    requires
        st_ok(st, s@.len() as int),
    ensures
        st_view(r) == st_char(st_view(st), s@, c),
        st_ok(r, s@.len() as int),
{
    match st {
        Ok((i, p)) => match scan_char_at(s, i, c) {
            Ok(j) => Ok((j, p)),
            Err(e) => Err(e),
        },
        Err(e) => Err(e),
    }
}

/// Whether the bytes of `s` from `i` on start with `lit`.
fn bytes_match_at(s: &[u8], i: usize, lit: &[u8]) -> (r: bool)
    requires
        i + lit@.len() <= s@.len(),
    ensures
        r == (s@.subrange(i as int, i + lit@.len()) == lit@),
{
    let mut k: usize = 0;
    while k < lit.len()
        invariant
            i + lit@.len() <= s@.len(),
            s@.len() == s.len(),
            s.len() <= usize::MAX,
            k <= lit@.len(),
            forall|m: int| 0 <= m < k ==> s@[i + m] == lit@[m],
        decreases lit.len() - k,
    {
        if s[i + k] != lit[k] {
            proof {
                let sub = s@.subrange(i as int, i + lit@.len());
                assert(sub[k as int] != lit@[k as int]);
            }
            return false;
        }
        k = k + 1;
    }
    proof {
        assert(s@.subrange(i as int, i + lit@.len()) =~= lit@);
    }
    true
}

/// Requires the bytes `lit`.
pub fn x_literal(st: Result<(usize, Parsed), ParseError>, s: &[u8], lit: &[u8]) -> (r: Result<
    (usize, Parsed),
    ParseError,
>)
    requires
        st_ok(st, s@.len() as int),
    ensures
        st_view(r) == st_literal(st_view(st), s@, lit@),
        st_ok(r, s@.len() as int),
{
    match st {
        Ok((i, p)) => {
            if s.len() - i < lit.len() {
                return Err(ParseError::TooShort);
            }
            if !bytes_match_at(s, i, lit) {
                return Err(ParseError::Invalid);
            }
            Ok((i + lit.len(), p))
        },
        Err(e) => Err(e),
    }
}

/// Reads between `min` and `max` digits into the field `k`.
pub fn x_digits(
    st: Result<(usize, Parsed), ParseError>,
    s: &[u8],
    min: usize,
    max: usize,
    k: Numeric,
) -> (r: Result<(usize, Parsed), ParseError>)
    requires
        st_ok(st, s@.len() as int),
        1 <= min <= max,
    ensures
        st_view(r) == st_digits(st_view(st), s@, min as int, max as int, k),
        st_ok(r, s@.len() as int),
{
    match st {
        Ok((i, p)) => match scan_number_at(s, i, min, max) {
            Ok((j, v)) => match set_numeric_at(p, k, v) {
                Ok(q) => Ok((j, q)),
                Err(e) => Err(e),
            },
            Err(e) => Err(e),
        },
        Err(e) => Err(e),
    }
}

/// Reads a numeric field after white space.
pub fn x_numeric(st: Result<(usize, Parsed), ParseError>, s: &[u8], k: Numeric) -> (r: Result<
    (usize, Parsed),
    ParseError,
>)
    requires
        st_ok(st, s@.len() as int),
    ensures
        st_view(r) == st_numeric(st_view(st), s@, k),
        st_ok(r, s@.len() as int),
{
    match st {
        Ok((i0, p)) => {
            let i = skip_spaces_at(s, i0);
            let r = if (k == Numeric::Year || k == Numeric::IsoYear) && i < s.len() && s[i] == 45 {
                match scan_number_at(s, i + 1, 1, s.len()) {
                    Ok((j, v)) => Ok((j, -v)),
                    Err(e) => Err(e),
                }
            } else if (k == Numeric::Year || k == Numeric::IsoYear) && i < s.len() && s[i] == 43 {
                scan_number_at(s, i + 1, 1, s.len())
            } else {
                let w: usize = match k {
                    Numeric::Year => 4,
                    Numeric::IsoYear => 4,
                    Numeric::Ordinal => 3,
                    Numeric::Nanosecond => 9,
                    Numeric::NumDaysFromSun => 1,
                    Numeric::WeekdayFromMon => 1,
                    _ => 2,
                };
                scan_number_at(s, i, 1, w)
            };
            match r {
                Ok((j, v)) => match set_numeric_at(p, k, v) {
                    Ok(q) => Ok((j, q)),
                    Err(e) => Err(e),
                },
                Err(e) => Err(e),
            }
        },
        Err(e) => Err(e),
    }
}

/// Reads an optional fraction of a second.
pub fn x_fraction(st: Result<(usize, Parsed), ParseError>, s: &[u8]) -> (r: Result<
    (usize, Parsed),
    ParseError,
>)
    requires
        st_ok(st, s@.len() as int),
    ensures
        st_view(r) == st_fraction(st_view(st), s@),
        st_ok(r, s@.len() as int),
{
    match st {
        Ok((i, p)) => if i < s.len() && s[i] == 46 {
            match scan_nanosecond_at(s, i + 1) {
                Ok((j, v)) => match set_numeric_at(p, Numeric::Nanosecond, v) {
                    Ok(q) => Ok((j, q)),
                    Err(e) => Err(e),
                },
                Err(e) => Err(e),
            }
        } else {
            Ok((i, p))
        },
        Err(e) => Err(e),
    }
}

/// Reads an offset.
pub fn x_offset(
    st: Result<(usize, Parsed), ParseError>,
    s: &[u8],
    zulu: bool,
    colon: Colon,
    skip: bool,
) -> (r: Result<(usize, Parsed), ParseError>)
    requires
        st_ok(st, s@.len() as int),
    ensures
        st_view(r) == st_offset(st_view(st), s@, zulu, colon, skip),
        st_ok(r, s@.len() as int),
{
    match st {
        Ok((i0, p)) => {
            let i = if skip {
                skip_spaces_at(s, i0)
            } else {
                i0
            };
            let r = if zulu {
                scan_offset_zulu_at(s, i, colon)
            } else {
                scan_offset_at(s, i, colon)
            };
            match r {
                Ok((j, v)) => match set_offset_at(p, v) {
                    Ok(q) => Ok((j, q)),
                    Err(e) => Err(e),
                },
                Err(e) => Err(e),
            }
        },
        Err(e) => Err(e),
    }
}

/// Requires the text to end here.
pub fn x_end(st: Result<(usize, Parsed), ParseError>, s: &[u8]) -> (r: Result<Parsed, ParseError>)
    ensures
        r == st_end(st_view(st), s@),
{
    match st {
        Ok((i, p)) => if i < s.len() {
            Err(ParseError::TooLong)
        } else {
            Ok(p)
        },
        Err(e) => Err(e),
    }
}

/// Requires `T` or `t`.
pub fn x_t(st: Result<(usize, Parsed), ParseError>, s: &[u8]) -> (r: Result<
    (usize, Parsed),
    ParseError,
>)
    requires
        st_ok(st, s@.len() as int),
    ensures
        st_view(r) == st_t(st_view(st), s@),
        st_ok(r, s@.len() as int),
{
    match st {
        Ok((i, p)) => if i >= s.len() {
            Err(ParseError::TooShort)
        } else if s[i] != 84 && s[i] != 116 {
            Err(ParseError::Invalid)
        } else {
            Ok((i + 1, p))
        },
        Err(e) => Err(e),
    }
}

/// Requires a recorded offset to be less than a day either way.
pub fn x_offset_range(st: Result<(usize, Parsed), ParseError>) -> (r: Result<
    (usize, Parsed),
    ParseError,
>)
    ensures
        st_view(r) == st_offset_range(st_view(st)),
        st_ok(st, 0) ==> true,
        forall|len: int| st_ok(st, len) ==> st_ok(r, len),
{
    match st {
        Ok((i, p)) => {
            if let Some(o) = p.offset {
                if o <= -86400 || o >= 86400 {
                    return Err(ParseError::OutOfRange);
                }
            }
            Ok((i, p))
        },
        Err(e) => Err(e),
    }
}

/// RFC 3339 from `st`.
pub fn x_rfc3339(st: Result<(usize, Parsed), ParseError>, s: &[u8]) -> (r: Result<
    (usize, Parsed),
    ParseError,
>)
    requires
        st_ok(st, s@.len() as int),
    ensures
        st_view(r) == st_rfc3339(st_view(st), s@),
        st_ok(r, s@.len() as int),
{
    let a = x_digits(st, s, 4, 4, Numeric::Year);
    let a = x_char(a, s, 45u8);
    let a = x_digits(a, s, 2, 2, Numeric::Month);
    let a = x_char(a, s, 45u8);
    let a = x_digits(a, s, 2, 2, Numeric::Day);
    let a = x_t(a, s);
    let a = x_digits(a, s, 2, 2, Numeric::Hour);
    let a = x_char(a, s, 58u8);
    let a = x_digits(a, s, 2, 2, Numeric::Minute);
    let a = x_char(a, s, 58u8);
    let a = x_digits(a, s, 2, 2, Numeric::Second);
    let a = x_fraction(a, s);
    let a = x_offset(a, s, true, Colon::Exact, false);
    x_offset_range(a)
}

/// Requires white space.
pub fn x_space_req(st: Result<(usize, Parsed), ParseError>, s: &[u8]) -> (r: Result<
    (usize, Parsed),
    ParseError,
>)
    requires
        st_ok(st, s@.len() as int),
    ensures
        st_view(r) == st_space_req(st_view(st), s@),
        st_ok(r, s@.len() as int),
{
    match st {
        Ok((i, p)) => match scan_space_at(s, i) {
            Ok(j) => Ok((j, p)),
            Err(e) => Err(e),
        },
        Err(e) => Err(e),
    }
}

/// Fails with `e` unless reading has already failed.
pub fn x_fail(st: Result<(usize, Parsed), ParseError>, e: ParseError) -> (r: Result<
    (usize, Parsed),
    ParseError,
>)
    ensures
        st_view(r) == st_fail(st_view(st), e),
        r is Err,
{
    match st {
        Ok(_) => Err(e),
        Err(e0) => Err(e0),
    }
}

/// Reads the short name of a day of the week.
pub fn x_weekday_name(st: Result<(usize, Parsed), ParseError>, s: &[u8]) -> (r: Result<
    (usize, Parsed),
    ParseError,
>)
    requires
        st_ok(st, s@.len() as int),
    ensures
        st_view(r) == st_weekday_name(st_view(st), s@),
        st_ok(r, s@.len() as int),
{
    match st {
        Ok((i, p)) => match scan_short_weekday_at(s, i) {
            Ok((j, w)) => match set_weekday_at(p, Weekday::from_index(w)) {
                Ok(q) => Ok((j, q)),
                Err(e) => Err(e),
            },
            Err(e) => Err(e),
        },
        Err(e) => Err(e),
    }
}

/// Reads the short name of a month.
pub fn x_month_name(st: Result<(usize, Parsed), ParseError>, s: &[u8]) -> (r: Result<
    (usize, Parsed),
    ParseError,
>)
    requires
        st_ok(st, s@.len() as int),
    ensures
        st_view(r) == st_month_name(st_view(st), s@),
        st_ok(r, s@.len() as int),
{
    match st {
        Ok((i, p)) => match scan_short_month_at(s, i) {
            Ok((j, m)) => match set_numeric_at(p, Numeric::Month, m as i64) {
                Ok(q) => Ok((j, q)),
                Err(e) => Err(e),
            },
            Err(e) => Err(e),
        },
        Err(e) => Err(e),
    }
}

/// Reads the short or full name of a day of the week.
pub fn x_long_weekday(st: Result<(usize, Parsed), ParseError>, s: &[u8]) -> (r: Result<
    (usize, Parsed),
    ParseError,
>)
    requires
        st_ok(st, s@.len() as int),
    ensures
        st_view(r) == st_long_weekday(st_view(st), s@),
        st_ok(r, s@.len() as int),
{
    match st {
        Ok((i, p)) => match scan_long_weekday_at(s, i) {
            Ok((j, w)) => match set_weekday_at(p, Weekday::from_index(w)) {
                Ok(q) => Ok((j, q)),
                Err(e) => Err(e),
            },
            Err(e) => Err(e),
        },
        Err(e) => Err(e),
    }
}

/// Reads the short or full name of a month.
pub fn x_long_month(st: Result<(usize, Parsed), ParseError>, s: &[u8]) -> (r: Result<
    (usize, Parsed),
    ParseError,
>)
    requires
        st_ok(st, s@.len() as int),
    ensures
        st_view(r) == st_long_month(st_view(st), s@),
        st_ok(r, s@.len() as int),
{
    match st {
        Ok((i, p)) => match scan_long_month_at(s, i) {
            Ok((j, m)) => match set_numeric_at(p, Numeric::Month, m as i64) {
                Ok(q) => Ok((j, q)),
                Err(e) => Err(e),
            },
            Err(e) => Err(e),
        },
        Err(e) => Err(e),
    }
}

/// Reads `am` or `pm`.
pub fn x_ampm(st: Result<(usize, Parsed), ParseError>, s: &[u8]) -> (r: Result<
    (usize, Parsed),
    ParseError,
>)
    requires
        st_ok(st, s@.len() as int),
    ensures
        st_view(r) == st_ampm(st_view(st), s@),
        st_ok(r, s@.len() as int),
{
    match st {
        Ok((i, p)) => match scan_ampm_at(s, i) {
            Ok((j, pm)) => match set_ampm_at(p, pm) {
                Ok(q) => Ok((j, q)),
                Err(e) => Err(e),
            },
            Err(e) => Err(e),
        },
        Err(e) => Err(e),
    }
}

/// Reads the optional day of the week of RFC 2822.
pub fn x_rfc2822_weekday(st: Result<(usize, Parsed), ParseError>, s: &[u8]) -> (r: Result<
    (usize, Parsed),
    ParseError,
>)
    requires
        st_ok(st, s@.len() as int),
    ensures
        st_view(r) == st_rfc2822_weekday(st_view(st), s@),
        st_ok(r, s@.len() as int),
{
    match st {
        Ok((i, p)) => match scan_short_weekday_at(s, i) {
            Err(_) => Ok((i, p)),
            Ok((j, w)) => if j < s.len() && s[j] == 44 {
                match set_weekday_at(p, Weekday::from_index(w)) {
                    Ok(q) => Ok((j + 1, q)),
                    Err(e) => Err(e),
                }
            } else {
                Err(ParseError::Invalid)
            },
        },
        Err(e) => Err(e),
    }
}

/// Reads an RFC 2822 year of at least two digits.
pub fn x_year_2822(st: Result<(usize, Parsed), ParseError>, s: &[u8]) -> (r: Result<
    (usize, Parsed),
    ParseError,
>)
    requires
        st_ok(st, s@.len() as int),
    ensures
        st_view(r) == st_year_2822(st_view(st), s@),
        st_ok(r, s@.len() as int),
{
    match st {
        Ok((i, p)) => {
            if s.len() < 2 {
                proof {
                    crate::scan::lemma_digit_run(s@, i as int, s@.len() as int);
                }
                return Err(if i >= s.len() {
                    ParseError::TooShort
                } else {
                    ParseError::Invalid
                });
            }
            match scan_number_at(s, i, 2, s.len()) {
                Ok((j, v)) => {
                    let len = j - i;
                    let y: i64 = if len == 2 && v < 50 {
                        v + 2000
                    } else if len == 2 || len == 3 {
                        proof {
                            crate::scan::lemma_digit_run(s@, i as int, s@.len() as int);
                            crate::scan::lemma_digits_value_bound(s@, i as int, j as int);
                            assert(crate::text::pow10(3) == 1000) by {
                                reveal_with_fuel(crate::text::pow10, 4);
                            }
                            assert(crate::text::pow10(2) == 100) by {
                                reveal_with_fuel(crate::text::pow10, 3);
                            }
                        }
                        v + 1900
                    } else {
                        v
                    };
                    match set_numeric_at(p, Numeric::Year, y) {
                        Ok(q) => Ok((j, q)),
                        Err(e) => Err(e),
                    }
                },
                Err(e) => Err(e),
            }
        },
        Err(e) => Err(e),
    }
}

/// Reads the optional seconds of RFC 2822.
pub fn x_opt_seconds(st: Result<(usize, Parsed), ParseError>, s: &[u8]) -> (r: Result<
    (usize, Parsed),
    ParseError,
>)
    requires
        st_ok(st, s@.len() as int),
    ensures
        st_view(r) == st_opt_seconds(st_view(st), s@),
        st_ok(r, s@.len() as int),
{
    match st {
        Ok((i, p)) => {
            let k = skip_spaces_at(s, i);
            if k < s.len() && s[k] == 58 {
                let k2 = skip_spaces_at(s, k + 1);
                x_digits(Ok((k2, p)), s, 2, 2, Numeric::Second)
            } else {
                Ok((i, p))
            }
        },
        Err(e) => Err(e),
    }
}

/// Reads an RFC 2822 zone, recording its offset when it is known.
pub fn x_zone_2822(st: Result<(usize, Parsed), ParseError>, s: &[u8]) -> (r: Result<
    (usize, Parsed),
    ParseError,
>)
    requires
        st_ok(st, s@.len() as int),
    ensures
        st_view(r) == st_zone_2822(st_view(st), s@),
        st_ok(r, s@.len() as int),
{
    match st {
        Ok((i, p)) => match scan_zone_2822_at(s, i) {
            Ok((j, Some(v))) => match set_offset_at(p, v) {
                Ok(q) => Ok((j, q)),
                Err(e) => Err(e),
            },
            Ok((j, None)) => Ok((j, p)),
            Err(e) => Err(e),
        },
        Err(e) => Err(e),
    }
}

/// RFC 2822 from `st`.
pub fn x_rfc2822(st: Result<(usize, Parsed), ParseError>, s: &[u8]) -> (r: Result<
    (usize, Parsed),
    ParseError,
>)
    requires
        st_ok(st, s@.len() as int),
    ensures
        st_view(r) == st_rfc2822(st_view(st), s@),
        st_ok(r, s@.len() as int),
{
    let a = x_space(st, s);
    let a = x_rfc2822_weekday(a, s);
    let a = x_space(a, s);
    let a = x_digits(a, s, 1, 2, Numeric::Day);
    let a = x_space_req(a, s);
    let a = x_month_name(a, s);
    let a = x_space_req(a, s);
    let a = x_year_2822(a, s);
    let a = x_space_req(a, s);
    let a = x_digits(a, s, 2, 2, Numeric::Hour);
    let a = x_space(a, s);
    let a = x_char(a, s, 58u8);
    let a = x_space(a, s);
    let a = x_digits(a, s, 2, 2, Numeric::Minute);
    let a = x_opt_seconds(a, s);
    let a = x_space_req(a, s);
    x_zone_2822(a, s)
}

/// Reads a piece of fixed form.
pub fn x_fixed(st: Result<(usize, Parsed), ParseError>, s: &[u8], f: Fixed) -> (r: Result<
    (usize, Parsed),
    ParseError,
>)
    requires
        st_ok(st, s@.len() as int),
    ensures
        st_view(r) == st_fixed(st_view(st), s@, f),
        st_ok(r, s@.len() as int),
{
    match f {
        Fixed::ShortMonthName => x_month_name(st, s),
        Fixed::LongMonthName => x_long_month(st, s),
        Fixed::ShortWeekdayName => x_weekday_name(st, s),
        Fixed::LongWeekdayName => x_long_weekday(st, s),
        Fixed::LowerAmPm => x_ampm(st, s),
        Fixed::UpperAmPm => x_ampm(st, s),
        Fixed::Nanosecond => x_fraction(st, s),
        Fixed::Nanosecond3 => x_fraction(st, s),
        Fixed::Nanosecond6 => x_fraction(st, s),
        Fixed::Nanosecond9 => x_fraction(st, s),
        Fixed::TimezoneName => x_fail(st, ParseError::BadFormat),
        Fixed::TimezoneOffsetColon => x_offset(st, s, false, Colon::Loose, true),
        Fixed::TimezoneOffset => x_offset(st, s, false, Colon::Loose, true),
        Fixed::TimezoneOffsetColonZ => x_offset(st, s, true, Colon::Loose, true),
        Fixed::TimezoneOffsetZ => x_offset(st, s, true, Colon::Loose, true),
        Fixed::RFC2822 => x_rfc2822(st, s),
        Fixed::RFC3339 => x_rfc3339(st, s),
    }
}

/// Reads one item.
pub fn x_item(st: Result<(usize, Parsed), ParseError>, s: &[u8], it: &Item) -> (r: Result<
    (usize, Parsed),
    ParseError,
>)
    requires
        st_ok(st, s@.len() as int),
    ensures
        st_view(r) == st_item(st_view(st), s@, it@),
        st_ok(r, s@.len() as int),
{
    match it {
        Item::Literal(lit) => x_literal(st, s, lit.as_str().as_bytes()),
        Item::Space(_) => x_space(st, s),
        Item::Numeric(k, _) => x_numeric(st, s, *k),
        Item::Fixed(f) => x_fixed(st, s, *f),
        Item::Error => x_fail(st, ParseError::BadFormat),
    }
}

/// Reads all of `s` with `items`, adding what is read to the fields
/// `parsed`.
pub fn parse(parsed: Parsed, s: &str, items: &[Item]) -> (r: Result<Parsed, ParseError>)
    ensures
        r == parse_spec(parsed, s.spec_bytes(), items_view(items@)),
{
    let b = s.as_bytes();
    let mut st: Result<(usize, Parsed), ParseError> = Ok((0, parsed));
    let mut k: usize = 0;
    while k < items.len()
        invariant
            b@ == s.spec_bytes(),
            k <= items@.len(),
            st_ok(st, b@.len() as int),
            st_view(st) == st_items(Ok((0int, parsed)), b@, items_view(items@).take(k as int)),
        decreases items@.len() - k,
    {
        proof {
            let iv = items_view(items@);
            assert(iv.take(k + 1).drop_last() =~= iv.take(k as int));
            assert(iv.take(k + 1).last() == items@[k as int]@);
        }
        st = x_item(st, b, &items[k]);
        k = k + 1;
    }
    proof {
        assert(items_view(items@).take(k as int) =~= items_view(items@));
    }
    x_end(st, b)
}

/// Reads `s` in the form `YYYY-MM-DDTHH:MM:SS[.fff](Z|+HH:MM)`, white space
/// allowed between the parts and the numbers not padded.
pub fn parse_iso_bytes(s: &[u8]) -> (r: Result<DateTime<FixedOffset>, ParseError>)
    ensures
        fixed_result_view(r) == iso_str_spec(s@),
{
    let a: Result<(usize, Parsed), ParseError> = Ok((0, Parsed::new()));
    let a = x_space(a, s);
    let a = x_numeric(a, s, Numeric::Year);
    let a = x_space(a, s);
    let a = x_char(a, s, 45u8);
    let a = x_space(a, s);
    let a = x_numeric(a, s, Numeric::Month);
    let a = x_space(a, s);
    let a = x_char(a, s, 45u8);
    let a = x_space(a, s);
    let a = x_numeric(a, s, Numeric::Day);
    let a = x_space(a, s);
    let a = x_char(a, s, 84u8);
    let a = x_space(a, s);
    let a = x_numeric(a, s, Numeric::Hour);
    let a = x_space(a, s);
    let a = x_char(a, s, 58u8);
    let a = x_space(a, s);
    let a = x_numeric(a, s, Numeric::Minute);
    let a = x_space(a, s);
    let a = x_char(a, s, 58u8);
    let a = x_space(a, s);
    let a = x_numeric(a, s, Numeric::Second);
    let a = x_fraction(a, s);
    let a = x_space(a, s);
    let a = x_offset(a, s, true, Colon::Loose, true);
    let a = x_space(a, s);
    match x_end(a, s) {
        Ok(p) => p.to_datetime(),
        Err(e) => Err(e),
    }
}

/// Reads the RFC 3339 text `s`.
pub fn parse_rfc3339_bytes(s: &[u8]) -> (r: Result<DateTime<FixedOffset>, ParseError>)
    ensures
        fixed_result_view(r) == rfc3339_spec(s@),
{
    let a: Result<(usize, Parsed), ParseError> = Ok((0, Parsed::new()));
    let a = x_rfc3339(a, s);
    match x_end(a, s) {
        Ok(p) => p.to_datetime(),
        Err(e) => Err(e),
    }
}

impl DateTime<FixedOffset> {
    /// Parses an RFC 3339 and ISO 8601 date and time string such as
    /// `1996-12-19T16:39:57-08:00`, giving a date-time at the offset it states.
    pub fn parse_from_rfc3339(s: &str) -> (r: Result<DateTime<FixedOffset>, ParseError>)
        ensures
            fixed_result_view(r) == rfc3339_spec(s.spec_bytes()),
    {
        parse_rfc3339_bytes(s.as_bytes())
    }

    /// Parses an RFC 2822 date and time string such as
    /// `Tue, 1 Jul 2003 10:52:37 +0200`, giving a date-time at the offset it
    /// states.
    pub fn parse_from_rfc2822(s: &str) -> (r: Result<DateTime<FixedOffset>, ParseError>)
        ensures
            fixed_result_view(r) == rfc2822_spec(s.spec_bytes()),
    {
        let b = s.as_bytes();
        let a: Result<(usize, Parsed), ParseError> = Ok((0, Parsed::new()));
        let a = x_rfc2822(a, b);
        match x_end(a, b) {
            Ok(p) => p.to_datetime(),
            Err(e) => Err(e),
        }
    }

    /// Parses `s` in the `strftime`-style format `fmt`, giving a date-time at
    /// the offset it states.
    pub fn parse_from_str(s: &str, fmt: &str) -> (r: Result<DateTime<FixedOffset>, ParseError>)
        ensures
            fixed_result_view(r) == format_parse_spec(s.spec_bytes(), fmt.spec_bytes()),
    {
        let items = strftime_items(fmt);
        match parse(Parsed::new(), s, items.as_slice()) {
            Ok(p) => p.to_datetime(),
            Err(e) => Err(e),
        }
    }

    /// Parses `YYYY-MM-DDTHH:MM:SS[.fff](Z|+HH:MM)` with white space allowed
    /// between the parts and the numbers not padded, giving a date-time at
    /// the offset it states.
    pub fn parse_iso(s: &str) -> (r: Result<DateTime<FixedOffset>, ParseError>)
        ensures
            fixed_result_view(r) == iso_str_spec(s.spec_bytes()),
    {
        parse_iso_bytes(s.as_bytes())
    }
}

impl DateTime<UTC> {
    /// Parses what `DateTime::<FixedOffset>::parse_iso` reads and gives the
    /// same instant in UTC.
    pub fn parse_iso_utc(s: &str) -> (r: Result<DateTime<UTC>, ParseError>)
        ensures
            match r {
                Ok(dt) => iso_str_spec(s.spec_bytes()) matches Ok(v) && dt@.0 == v.0,
                Err(e) => iso_str_spec(s.spec_bytes()) == Err::<((int, int), int), ParseError>(e),
            },
    {
        match parse_iso_bytes(s.as_bytes()) {
            Ok(dt) => {
                proof {
                    use_type_invariant(&dt);
                    dt.lemma_inv();
                }
                Ok(dt.with_timezone(&UTC))
            },
            Err(e) => Err(e),
        }
    }
}

impl std::str::FromStr for DateTime<FixedOffset> {
    type Err = ParseError;

    fn from_str(s: &str) -> (r: Result<DateTime<FixedOffset>, ParseError>)
        ensures
            fixed_result_view(r) == iso_str_spec(s.spec_bytes()),
    {
        DateTime::<FixedOffset>::parse_iso(s)
    }
}

impl std::str::FromStr for DateTime<UTC> {
    type Err = ParseError;

    fn from_str(s: &str) -> (r: Result<DateTime<UTC>, ParseError>)
        ensures
            match r {
                Ok(dt) => iso_str_spec(s.spec_bytes()) matches Ok(v) && dt@.0 == v.0,
                Err(e) => iso_str_spec(s.spec_bytes()) == Err::<((int, int), int), ParseError>(e),
            },
    {
        DateTime::<UTC>::parse_iso_utc(s)
    }
}

} // verus!
