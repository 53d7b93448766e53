//! The textual forms of date-times: ISO 8601 (`Debug`-like and
//! `Display`-like), RFC 3339 and RFC 2822.
use vstd::prelude::*;
use crate::calendar::{weekday_index, ordinal_of};
use crate::datetime::DateTime;
use crate::naive::{NaiveDate, NaiveTime, NaiveDateTime, date_of, time_of, leap_free, iso_year, iso_week};
use crate::offset::{Offset, offset_hhmm, push_offset_hhmm, sign_byte, abs, offset_in_range};
use crate::text::{
    fixed_width, is_ascii_bytes, ascii_chars, push_fixed_width, push_byte, push_all,
    lemma_ascii_concat, ascii_string, lemma_ascii_utf8, string_from_utf8,
};
use crate::items::{Item, ItemView, Fixed, Pad, items_view, strftime_spec, strftime_items};
use crate::parse::{Numeric, numeric_width, week_from_sun_of, week_from_mon_of};
use crate::scan::{
    long_month_suffix, long_weekday_suffix, long_month_suffix_bytes, long_weekday_suffix_bytes,
};
use vstd::utf8::{valid_utf8, decode_utf8};
use vstd::string::StringSliceAdditionalSpecFns;

verus! {

/// `n` with two digits.
pub open spec fn two_digits(n: int) -> Seq<u8> {
    fixed_width(n as nat, 2)
}

/// Number of decimal digits of `a` (for `a` below ten million).
pub open spec fn num_digits(a: int) -> nat {
    if a < 10 {
        1
    } else if a < 100 {
        2
    } else if a < 1000 {
        3
    } else if a < 10000 {
        4
    } else if a < 100000 {
        5
    } else if a < 1000000 {
        6
    } else {
        7
    }
}

/// The larger of two widths.
pub open spec fn wider(a: nat, b: nat) -> nat {
    if a < b {
        b
    } else {
        a
    }
}

/// An ISO 8601 year: four digits from 0 to 9999, otherwise a sign and at
/// least four digits.
pub open spec fn year_text(y: int) -> Seq<u8> {
    if 0 <= y <= 9999 {
        fixed_width(y as nat, 4)
    } else {
        seq![sign_byte(y)] + fixed_width(abs(y) as nat, wider(4, num_digits(abs(y))))
    }
}

/// An ISO 8601 date `YYYY-MM-DD`.
pub open spec fn date_text(d: (int, int, int)) -> Seq<u8> {
    year_text(d.0) + seq![45u8] + two_digits(d.1) + seq![45u8] + two_digits(d.2)
}

/// The fraction of a second: nothing when zero, otherwise a dot and three,
/// six or nine digits, the fewest that show it exactly.
pub open spec fn fraction_text(nano: int) -> Seq<u8> {
    if nano == 0 {
        Seq::<u8>::empty()
    } else if nano % 1_000_000 == 0 {
        seq![46u8] + fixed_width((nano / 1_000_000) as nat, 3)
    } else if nano % 1_000 == 0 {
        seq![46u8] + fixed_width((nano / 1_000) as nat, 6)
    } else {
        seq![46u8] + fixed_width(nano as nat, 9)
    }
}

/// The second shown for a time of day: 60 during a leap second.
pub open spec fn shown_second(t: (int, int)) -> int {
    t.0 % 60 + if t.1 >= 1_000_000_000 {
        1int
    } else {
        0int
    }
}

/// A time of day `HH:MM:SS`.
pub open spec fn hms_text(t: (int, int)) -> Seq<u8> {
    two_digits(t.0 / 3600) + seq![58u8] + two_digits(t.0 / 60 % 60) + seq![58u8] + two_digits(
        shown_second(t),
    )
}

/// A time of day `HH:MM:SS` with its fraction.
pub open spec fn time_text(t: (int, int)) -> Seq<u8> {
    hms_text(t) + fraction_text(leap_free(t.1))
}

/// A date-time as its date, the separator `sep` and its time of day.
pub open spec fn naive_text(v: (int, int), sep: u8) -> Seq<u8> {
    date_text(date_of(v)) + seq![sep] + time_text(time_of(v))
}

/// English three-letter name of the day of the week `i` days after Monday.
pub open spec fn short_weekday_name(i: int) -> Seq<u8> {
    if i == 0 {
        seq![77u8, 111u8, 110u8]
    } else if i == 1 {
        seq![84u8, 117u8, 101u8]
    } else if i == 2 {
        seq![87u8, 101u8, 100u8]
    } else if i == 3 {
        seq![84u8, 104u8, 117u8]
    } else if i == 4 {
        seq![70u8, 114u8, 105u8]
    } else if i == 5 {
        seq![83u8, 97u8, 116u8]
    } else {
        seq![83u8, 117u8, 110u8]
    }
}

/// English three-letter name of month `m` (1 to 12).
pub open spec fn short_month_name(m: int) -> Seq<u8> {
    if m == 1 {
        seq![74u8, 97u8, 110u8]
    } else if m == 2 {
        seq![70u8, 101u8, 98u8]
    } else if m == 3 {
        seq![77u8, 97u8, 114u8]
    } else if m == 4 {
        seq![65u8, 112u8, 114u8]
    } else if m == 5 {
        seq![77u8, 97u8, 121u8]
    } else if m == 6 {
        seq![74u8, 117u8, 110u8]
    } else if m == 7 {
        seq![74u8, 117u8, 108u8]
    } else if m == 8 {
        seq![65u8, 117u8, 103u8]
    } else if m == 9 {
        seq![83u8, 101u8, 112u8]
    } else if m == 10 {
        seq![79u8, 99u8, 116u8]
    } else if m == 11 {
        seq![78u8, 111u8, 118u8]
    } else {
        seq![68u8, 101u8, 99u8]
    }
}

/// The number of digits of a day of the month.
pub open spec fn day_digits(d: int) -> nat {
    if d < 10 {
        1
    } else {
        2
    }
}

/// A day of the month with one or two digits, as it is written.
pub open spec fn day_text(d: int) -> Seq<u8> {
    fixed_width(d as nat, day_digits(d))
}

/// A year zero-padded to four characters, a minus sign counting as one.
pub open spec fn padded_year(y: int) -> Seq<u8> {
    if y >= 0 {
        fixed_width(y as nat, wider(4, num_digits(y)))
    } else {
        seq![45u8] + fixed_width((-y) as nat, wider(3, num_digits(-y)))
    }
}

/// The date of the local date-time `v` as RFC 2822 writes it, such as
/// `Tue, 1 Jul 2003`.
pub open spec fn rfc2822_date_text(v: (int, int)) -> Seq<u8> {
    let d = date_of(v);
    short_weekday_name(weekday_index(v.0 / 86400)) + seq![44u8, 32u8] + day_text(d.2)
        + seq![32u8] + short_month_name(d.1) + seq![32u8] + padded_year(d.0)
}

/// The RFC 2822 text of the local date-time `v` at offset `fix`, such as
/// `Tue, 1 Jul 2003 10:52:37 +0200`.
pub open spec fn rfc2822_text(v: (int, int), fix: int) -> Seq<u8> {
    rfc2822_date_text(v) + seq![32u8] + hms_text(time_of(v)) + seq![32u8] + offset_hhmm(fix, false)
}

/// The RFC 3339 text of the local date-time `v` at offset `fix`, such as
/// `1996-12-19T16:39:57-08:00`.
pub open spec fn rfc3339_text(v: (int, int), fix: int) -> Seq<u8> {
    naive_text(v, 84u8) + offset_hhmm(fix, true)
}

/// Number of decimal digits of `a`, which must be below ten million.
fn count_digits(a: u64) -> (r: u32)
    requires
        a < 10_000_000,
    ensures
        r == num_digits(a as int),
{
    if a < 10 {
        1
    } else if a < 100 {
        2
    } else if a < 1000 {
        3
    } else if a < 10000 {
        4
    } else if a < 100000 {
        5
    } else if a < 1000000 {
        6
    } else {
        7
    }
}

/// Appends an ISO 8601 year.
pub fn push_year(out: &mut Vec<u8>, y: i32)
    requires
        -10_000_000 < y < 10_000_000,
    ensures
        final(out)@ == old(out)@ + year_text(y as int),
        is_ascii_bytes(old(out)@) ==> is_ascii_bytes(final(out)@),
{
    if 0 <= y && y <= 9999 {
        push_fixed_width(out, y as u64, 4);
    } else {
        let a: u64 = if y < 0 {
            (-(y as i64)) as u64
        } else {
            y as u64
        };
        let nd = count_digits(a);
        push_byte(out, if y < 0 {
            45u8
        } else {
            43u8
        });
        push_fixed_width(out, a, if nd < 4 {
            4
        } else {
            nd
        });
        proof {
            assert(final(out)@ =~= old(out)@ + year_text(y as int));
        }
    }
}

/// Appends a year zero-padded to four characters.
pub fn push_padded_year(out: &mut Vec<u8>, y: i32)
    requires
        -10_000_000 < y < 10_000_000,
    ensures
        final(out)@ == old(out)@ + padded_year(y as int),
        is_ascii_bytes(old(out)@) ==> is_ascii_bytes(final(out)@),
{
    if y >= 0 {
        let nd = count_digits(y as u64);
        push_fixed_width(out, y as u64, if nd < 4 {
            4
        } else {
            nd
        });
    } else {
        let a = (-(y as i64)) as u64;
        let nd = count_digits(a);
        push_byte(out, 45u8);
        push_fixed_width(out, a, if nd < 3 {
            3
        } else {
            nd
        });
        proof {
            assert(final(out)@ =~= old(out)@ + padded_year(y as int));
        }
    }
}

/// Appends an ISO 8601 date.
pub fn push_date(out: &mut Vec<u8>, d: &NaiveDate)
    ensures
        final(out)@ == old(out)@ + date_text(d@),
        is_ascii_bytes(old(out)@) ==> is_ascii_bytes(final(out)@),
{
    let y = d.year();
    let m = d.month();
    let day = d.day();
    proof {
        crate::naive::lemma_date_days_range();
    }
    push_year(out, y);
    push_byte(out, 45u8);
    push_fixed_width(out, m as u64, 2);
    push_byte(out, 45u8);
    push_fixed_width(out, day as u64, 2);
    proof {
        assert(final(out)@ =~= old(out)@ + date_text(d@));
    }
}

/// Appends the fraction of a second (below one second).
pub fn push_fraction(out: &mut Vec<u8>, nano: u32)
    requires
        nano < 1_000_000_000,
    ensures
        final(out)@ == old(out)@ + fraction_text(nano as int),
        is_ascii_bytes(old(out)@) ==> is_ascii_bytes(final(out)@),
{
    if nano == 0 {
        proof {
            assert(old(out)@ + Seq::<u8>::empty() =~= old(out)@);
        }
    } else if nano % 1_000_000 == 0 {
        push_byte(out, 46u8);
        push_fixed_width(out, (nano / 1_000_000) as u64, 3);
        proof {
            assert(final(out)@ =~= old(out)@ + fraction_text(nano as int));
        }
    } else if nano % 1_000 == 0 {
        push_byte(out, 46u8);
        push_fixed_width(out, (nano / 1_000) as u64, 6);
        proof {
            assert(final(out)@ =~= old(out)@ + fraction_text(nano as int));
        }
    } else {
        push_byte(out, 46u8);
        push_fixed_width(out, nano as u64, 9);
        proof {
            assert(final(out)@ =~= old(out)@ + fraction_text(nano as int));
        }
    }
}

/// The second to show for a time of day: 60 during a leap second.
fn shown_second_of(t: &NaiveTime) -> (r: u32)
    ensures
        r == shown_second(t@),
        r <= 60,
{
    if t.nanosecond() >= 1_000_000_000 {
        t.second() + 1
    } else {
        t.second()
    }
}

/// Appends `HH:MM:SS`.
fn push_hms(out: &mut Vec<u8>, t: &NaiveTime)
    ensures
        final(out)@ == old(out)@ + hms_text(t@),
        is_ascii_bytes(old(out)@) ==> is_ascii_bytes(final(out)@),
{
    let h = t.hour();
    let m = t.minute();
    let s = shown_second_of(t);
    push_fixed_width(out, h as u64, 2);
    push_byte(out, 58u8);
    push_fixed_width(out, m as u64, 2);
    push_byte(out, 58u8);
    push_fixed_width(out, s as u64, 2);
    proof {
        assert(final(out)@ =~= old(out)@ + hms_text(t@));
    }
}

/// Appends a time of day with its fraction.
pub fn push_time(out: &mut Vec<u8>, t: &NaiveTime)
    ensures
        final(out)@ == old(out)@ + time_text(t@),
        is_ascii_bytes(old(out)@) ==> is_ascii_bytes(final(out)@),
{
    push_hms(out, t);
    push_fraction(out, crate::naive::leap_free_of(t.nanosecond()));
    proof {
        assert(final(out)@ =~= old(out)@ + time_text(t@));
    }
}

/// Appends a date-time as its date, `sep` and its time of day.
pub fn push_naive(out: &mut Vec<u8>, v: &NaiveDateTime, sep: u8)
    requires
        sep < 128,
    ensures
        final(out)@ == old(out)@ + naive_text(v@, sep),
        is_ascii_bytes(old(out)@) ==> is_ascii_bytes(final(out)@),
{
    let d = v.date();
    let t = v.time();
    push_date(out, &d);
    push_byte(out, sep);
    push_time(out, &t);
    proof {
        assert(final(out)@ =~= old(out)@ + naive_text(v@, sep));
    }
}

/// The three-letter name of a day of the week, from its distance to Monday.
pub fn short_weekday_bytes(i: u32) -> (r: [u8; 3])
    requires
        i < 7,
    ensures
        r@ == short_weekday_name(i as int),
{
    let name: [u8; 3] = if i == 0 {
        [77u8, 111u8, 110u8]
    } else if i == 1 {
        [84u8, 117u8, 101u8]
    } else if i == 2 {
        [87u8, 101u8, 100u8]
    } else if i == 3 {
        [84u8, 104u8, 117u8]
    } else if i == 4 {
        [70u8, 114u8, 105u8]
    } else if i == 5 {
        [83u8, 97u8, 116u8]
    } else {
        [83u8, 117u8, 110u8]
    };
    proof {
        assert(name@ =~= short_weekday_name(i as int));
    }
    name
}

/// The three-letter name of month `m` (1 to 12).
pub fn short_month_bytes(m: u32) -> (r: [u8; 3])
    requires
        1 <= m <= 12,
    ensures
        r@ == short_month_name(m as int),
{
    let name: [u8; 3] = if m == 1 {
        [74u8, 97u8, 110u8]
    } else if m == 2 {
        [70u8, 101u8, 98u8]
    } else if m == 3 {
        [77u8, 97u8, 114u8]
    } else if m == 4 {
        [65u8, 112u8, 114u8]
    } else if m == 5 {
        [77u8, 97u8, 121u8]
    } else if m == 6 {
        [74u8, 117u8, 110u8]
    } else if m == 7 {
        [74u8, 117u8, 108u8]
    } else if m == 8 {
        [65u8, 117u8, 103u8]
    } else if m == 9 {
        [83u8, 101u8, 112u8]
    } else if m == 10 {
        [79u8, 99u8, 116u8]
    } else if m == 11 {
        [78u8, 111u8, 118u8]
    } else {
        [68u8, 101u8, 99u8]
    };
    proof {
        assert(name@ =~= short_month_name(m as int));
    }
    name
}

/// Appends a three-letter name.
fn push_name(out: &mut Vec<u8>, name: [u8; 3])
    requires
        forall|k: int| 0 <= k < 3 ==> name@[k] < 128,
    ensures
        final(out)@ == old(out)@ + name@,
        is_ascii_bytes(old(out)@) ==> is_ascii_bytes(final(out)@),
{
    push_byte(out, name[0]);
    push_byte(out, name[1]);
    push_byte(out, name[2]);
    proof {
        assert(final(out)@ =~= old(out)@ + name@);
    }
}

/// Appends the three-letter name of a day of the week.
fn push_short_weekday(out: &mut Vec<u8>, i: u32)
    requires
        i < 7,
    ensures
        final(out)@ == old(out)@ + short_weekday_name(i as int),
        is_ascii_bytes(old(out)@) ==> is_ascii_bytes(final(out)@),
{
    push_name(out, short_weekday_bytes(i));
}

/// Appends the three-letter name of month `m`.
fn push_short_month(out: &mut Vec<u8>, m: u32)
    requires
        1 <= m <= 12,
    ensures
        final(out)@ == old(out)@ + short_month_name(m as int),
        is_ascii_bytes(old(out)@) ==> is_ascii_bytes(final(out)@),
{
    push_name(out, short_month_bytes(m));
}

impl<Tz: Offset> DateTime<Tz> {
    /// The local date-time in ISO 8601 form followed by the offset, such as
    /// `2014-05-06T07:08:09Z` (what `Debug` shows).
    pub fn to_debug_string(&self) -> (r: String)
        requires
            self.local_held(),
        ensures
            r@ == ascii_chars(naive_text(self.local(), 84u8) + self@.1.debug_spec()),
    {
        let local = self.naive_local();
        let mut out: Vec<u8> = Vec::new();
        push_naive(&mut out, &local, 84u8);
        let off = self.offset().debug_bytes();
        push_all(&mut out, off.as_slice());
        ascii_string(out)
    }

    /// The local date-time, a space and the offset, such as
    /// `2014-05-06 07:08:09 UTC` (what `Display` shows).
    pub fn to_display_string(&self) -> (r: String)
        requires
            self.local_held(),
        ensures
            r@ == ascii_chars(naive_text(self.local(), 32u8) + seq![32u8] + self@.1.display_spec()),
    {
        let local = self.naive_local();
        let mut out: Vec<u8> = Vec::new();
        push_naive(&mut out, &local, 32u8);
        push_byte(&mut out, 32u8);
        let off = self.offset().display_bytes();
        push_all(&mut out, off.as_slice());
        proof {
            assert(out@ =~= naive_text(self.local(), 32u8) + seq![32u8] + self@.1.display_spec());
        }
        ascii_string(out)
    }

    /// An RFC 3339 and ISO 8601 date and time string such as
    /// `1996-12-19T16:39:57-08:00`.
    pub fn to_rfc3339(&self) -> (r: String)
        requires
            self.local_held(),
        ensures
            r@ == ascii_chars(rfc3339_text(self.local(), self.fix())),
    {
        let local = self.naive_local();
        let fix = self.offset().local_minus_utc();
        let mut out: Vec<u8> = Vec::new();
        push_rfc3339(&mut out, &local, fix);
        proof {
            assert(out@ =~= rfc3339_text(self.local(), self.fix()));
        }
        ascii_string(out)
    }

    /// An RFC 2822 date and time string such as `Tue, 1 Jul 2003 10:52:37 +0200`.
    pub fn to_rfc2822(&self) -> (r: String)
        requires
            self.local_held(),
        ensures
            r@ == ascii_chars(rfc2822_text(self.local(), self.fix())),
    {
        let local = self.naive_local();
        let fix = self.offset().local_minus_utc();
        let mut out: Vec<u8> = Vec::new();
        push_rfc2822(&mut out, &local, fix);
        proof {
            assert(out@ =~= rfc2822_text(self.local(), self.fix()));
        }
        ascii_string(out)
    }

    /// The date-time written with the formatting items `items`, or `None`
    /// when one of them is an error.
    pub fn format_with_items(&self, items: &[Item]) -> (r: Option<String>)
        requires
            self.local_held(),
        ensures
            match r {
                Some(t) => items_text(
                    items_view(items@),
                    self.local(),
                    self.fix(),
                    self@.1.display_spec(),
                ) matches Some(b) && t@ == decode_utf8(b),
                None => items_text(
                    items_view(items@),
                    self.local(),
                    self.fix(),
                    self@.1.display_spec(),
                ) is None,
            },
    {
        let local = self.naive_local();
        let fix = self.offset().local_minus_utc();
        let name = self.offset().display_bytes();
        match format_items_bytes(items, &local, fix, name.as_slice()) {
            Some(b) => Some(string_from_utf8(b)),
            None => None,
        }
    }

    /// The date-time written in the `strftime`-style format `fmt`, or `None`
    /// when the format is malformed.
    pub fn format(&self, fmt: &str) -> (r: Option<String>)
        requires
            self.local_held(),
        ensures
            match r {
                Some(t) => items_text(
                    strftime_spec(fmt.spec_bytes()),
                    self.local(),
                    self.fix(),
                    self@.1.display_spec(),
                ) matches Some(b) && t@ == decode_utf8(b),
                None => items_text(
                    strftime_spec(fmt.spec_bytes()),
                    self.local(),
                    self.fix(),
                    self@.1.display_spec(),
                ) is None,
            },
    {
        let items = strftime_items(fmt);
        self.format_with_items(items.as_slice())
    }
}

/// Appends the RFC 3339 text of the local date-time `local` at offset `fix`.
fn push_rfc3339(out: &mut Vec<u8>, local: &NaiveDateTime, fix: i32)
    requires
        offset_in_range(fix as int),
    ensures
        final(out)@ == old(out)@ + rfc3339_text(local@, fix as int),
        is_ascii_bytes(old(out)@) ==> is_ascii_bytes(final(out)@),
{
    push_naive(out, local, 84u8);
    push_offset_hhmm(out, fix, true);
    proof {
        assert(final(out)@ =~= old(out)@ + rfc3339_text(local@, fix as int));
    }
}

/// Appends the date of the local date-time `local` as RFC 2822 writes it.
fn push_rfc2822_date(out: &mut Vec<u8>, local: &NaiveDateTime)
    ensures
        final(out)@ == old(out)@ + rfc2822_date_text(local@),
        is_ascii_bytes(old(out)@) ==> is_ascii_bytes(final(out)@),
{
    let d = local.date();
    proof {
        crate::naive::lemma_date_days_range();
    }
    push_short_weekday(out, d.weekday().num_days_from_monday());
    push_byte(out, 44u8);
    push_byte(out, 32u8);
    let day = d.day();
    push_fixed_width(out, day as u64, if day < 10 {
        1
    } else {
        2
    });
    push_byte(out, 32u8);
    push_short_month(out, d.month());
    push_byte(out, 32u8);
    push_padded_year(out, d.year());
    proof {
        assert(final(out)@ =~= old(out)@ + rfc2822_date_text(local@));
    }
}

/// Appends the RFC 2822 text of the local date-time `local` at offset `fix`.
fn push_rfc2822(out: &mut Vec<u8>, local: &NaiveDateTime, fix: i32)
    requires
        offset_in_range(fix as int),
    ensures
        final(out)@ == old(out)@ + rfc2822_text(local@, fix as int),
        is_ascii_bytes(old(out)@) ==> is_ascii_bytes(final(out)@),
{
    let t = local.time();
    push_rfc2822_date(out, local);
    push_byte(out, 32u8);
    push_hms(out, &t);
    push_byte(out, 32u8);
    push_offset_hhmm(out, fix, false);
    proof {
        assert(final(out)@ =~= old(out)@ + rfc2822_text(local@, fix as int));
    }
}

/// Written offsets are ASCII.
pub proof fn lemma_offset_ascii(fix: int, colon: bool)
    ensures
        is_ascii_bytes(offset_hhmm(fix, colon)),
{
    crate::text::lemma_fixed_width((abs(fix) / 3600) as nat, 2);
    crate::text::lemma_fixed_width((abs(fix) / 60 % 60) as nat, 2);
    let s = seq![crate::offset::minutes_sign_byte(fix)];
    let h = fixed_width((abs(fix) / 3600) as nat, 2);
    let c = if colon {
        seq![58u8]
    } else {
        Seq::<u8>::empty()
    };
    let m = fixed_width((abs(fix) / 60 % 60) as nat, 2);
    lemma_ascii_concat(h, c);
    lemma_ascii_concat(h + c, m);
    lemma_ascii_concat(s, h + c + m);
    assert(offset_hhmm(fix, colon) =~= s + (h + c + m));
}

/// Number of decimal digits of `n`.
pub open spec fn digit_count(n: nat) -> nat
    decreases n,
{
    if n < 10 {
        1
    } else {
        1 + digit_count(n / 10)
    }
}

/// `k` spaces, none when `k` is not positive.
pub open spec fn spaces(k: int) -> Seq<u8> {
    Seq::new(if k > 0 {
        k as nat
    } else {
        0
    }, |_i: int| 32u8)
}

/// The hour of a 24-hour clock on a 12-hour clock, from 1 to 12.
pub open spec fn hour12(h: int) -> int {
    if h % 12 == 0 {
        12
    } else {
        h % 12
    }
}

/// The value of the numeric field `k` of the local date-time `v`; the
/// second is 60 during a leap second.
pub open spec fn numeric_value(k: Numeric, v: (int, int)) -> int {
    let d = date_of(v);
    let w = weekday_index(v.0 / 86400);
    match k {
        Numeric::Year => d.0,
        Numeric::YearDiv100 => d.0 / 100,
        Numeric::YearMod100 => d.0 % 100,
        Numeric::Month => d.1,
        Numeric::Day => d.2,
        Numeric::Ordinal => ordinal_of(d.0, d.1, d.2),
        Numeric::WeekFromSun => week_from_sun_of(ordinal_of(d.0, d.1, d.2), v.0 / 86400),
        Numeric::WeekFromMon => week_from_mon_of(ordinal_of(d.0, d.1, d.2), v.0 / 86400),
        Numeric::IsoYear => iso_year(v.0 / 86400),
        Numeric::IsoYearDiv100 => iso_year(v.0 / 86400) / 100,
        Numeric::IsoYearMod100 => iso_year(v.0 / 86400) % 100,
        Numeric::IsoWeek => iso_week(v.0 / 86400),
        Numeric::Hour => time_of(v).0 / 3600,
        Numeric::Hour12 => hour12(time_of(v).0 / 3600),
        Numeric::Minute => time_of(v).0 / 60 % 60,
        Numeric::Second => shown_second(time_of(v)),
        Numeric::Nanosecond => leap_free(v.1),
        Numeric::NumDaysFromSun => (w + 1) % 7,
        Numeric::WeekdayFromMon => w + 1,
    }
}

/// The number `val` of field `k` padded as `pad` says to the width of the
/// field. A negative number carries its sign, and so does a year outside 0
/// to 9999, whose width is then one more; the sign counts towards the
/// width.
pub open spec fn numeric_text(k: Numeric, pad: Pad, val: int) -> Seq<u8> {
    let a = abs(val) as nat;
    let d = digit_count(a);
    let signed_year = (k == Numeric::Year || k == Numeric::IsoYear) && !(0 <= val < 10000);
    let sign = if signed_year || val < 0 {
        seq![sign_byte(val)]
    } else {
        Seq::<u8>::empty()
    };
    let total = if signed_year {
        numeric_width(k) + 1
    } else {
        numeric_width(k)
    };
    match pad {
        Pad::Bare => sign + fixed_width(a, d),
        Pad::Zero => sign + fixed_width(a, wider((total - sign.len()) as nat, d)),
        Pad::Space => spaces(total - sign.len() - d) + sign + fixed_width(a, d),
    }
}

/// `Z` for an offset of less than a minute either way, otherwise the offset.
pub open spec fn zulu_or_offset(fix: int, colon: bool) -> Seq<u8> {
    if -60 < fix < 60 {
        seq![90u8]
    } else {
        offset_hhmm(fix, colon)
    }
}

/// The text of a piece of fixed form for the local date-time `v` at offset
/// `fix` whose offset is named `name`.
pub open spec fn fixed_text(f: Fixed, v: (int, int), fix: int, name: Seq<u8>) -> Seq<u8> {
    let nano = leap_free(v.1);
    match f {
        Fixed::ShortMonthName => short_month_name(date_of(v).1),
        Fixed::LongMonthName => short_month_name(date_of(v).1) + long_month_suffix(date_of(v).1),
        Fixed::ShortWeekdayName => short_weekday_name(weekday_index(v.0 / 86400)),
        Fixed::LongWeekdayName => short_weekday_name(weekday_index(v.0 / 86400))
            + long_weekday_suffix(weekday_index(v.0 / 86400)),
        Fixed::LowerAmPm => if time_of(v).0 < 43200 {
            seq![97u8, 109u8]
        } else {
            seq![112u8, 109u8]
        },
        Fixed::UpperAmPm => if time_of(v).0 < 43200 {
            seq![65u8, 77u8]
        } else {
            seq![80u8, 77u8]
        },
        Fixed::Nanosecond => fraction_text(nano),
        Fixed::Nanosecond3 => seq![46u8] + fixed_width((nano / 1_000_000) as nat, 3),
        Fixed::Nanosecond6 => seq![46u8] + fixed_width((nano / 1_000) as nat, 6),
        Fixed::Nanosecond9 => seq![46u8] + fixed_width(nano as nat, 9),
        Fixed::TimezoneName => name,
        Fixed::TimezoneOffsetColon => offset_hhmm(fix, true),
        Fixed::TimezoneOffsetColonZ => zulu_or_offset(fix, true),
        Fixed::TimezoneOffset => offset_hhmm(fix, false),
        Fixed::TimezoneOffsetZ => zulu_or_offset(fix, false),
        Fixed::RFC2822 => rfc2822_text(v, fix),
        Fixed::RFC3339 => rfc3339_text(v, fix),
    }
}

/// The text of one item; an error item has none.
pub open spec fn item_text(it: ItemView, v: (int, int), fix: int, name: Seq<u8>) -> Option<Seq<u8>> {
    match it {
        ItemView::Literal(l) => Some(l),
        ItemView::Space(sp) => Some(sp),
        ItemView::Numeric(k, p) => Some(numeric_text(k, p, numeric_value(k, v))),
        ItemView::Fixed(f) => Some(fixed_text(f, v, fix, name)),
        ItemView::Error => None,
    }
}

/// The text of the items one after the other; none if any is an error.
pub open spec fn items_text(items: Seq<ItemView>, v: (int, int), fix: int, name: Seq<u8>) -> Option<
    Seq<u8>,
>
    decreases items.len(),
{
    if items.len() == 0 {
        Some(Seq::empty())
    } else {
        match (items_text(items.drop_last(), v, fix, name), item_text(items.last(), v, fix, name)) {
            (Some(a), Some(b)) => Some(a + b),
            _ => None,
        }
    }
}

/// A number below `10^k` has at most `k` digits.
pub proof fn lemma_digit_count_bound(n: nat, k: nat)
    requires
        1 <= k,
        n < crate::text::pow10(k),
    ensures
        1 <= digit_count(n) <= k,
    decreases k,
{
    if n >= 10 {
        if k == 1 {
            assert(crate::text::pow10(1) == 10) by {
                reveal_with_fuel(crate::text::pow10, 2);
            }
        }
        assert(n / 10 < crate::text::pow10((k - 1) as nat));
        lemma_digit_count_bound(n / 10, (k - 1) as nat);
    }
}

/// Number of decimal digits of `a`.
fn digit_count_of(a: u64) -> (r: u32)
    ensures
        r == digit_count(a as nat),
        1 <= r <= 20,
{
    proof {
        assert(crate::text::pow10(20) == 100_000_000_000_000_000_000) by {
            reveal_with_fuel(crate::text::pow10, 21);
        }
        lemma_digit_count_bound(a as nat, 20);
    }
    let mut n = a;
    let mut c: u32 = 1;
    while n >= 10
        invariant
            digit_count(a as nat) == c - 1 + digit_count(n as nat),
            digit_count(a as nat) <= 20,
            1 <= c,
        decreases n,
    {
        assert(digit_count(n as nat) == 1 + digit_count(n as nat / 10));
        n = n / 10;
        c = c + 1;
    }
    c
}

/// Appends `k` spaces.
fn push_spaces(out: &mut Vec<u8>, k: u32)
    ensures
        final(out)@ == old(out)@ + spaces(k as int),
        is_ascii_bytes(old(out)@) ==> is_ascii_bytes(final(out)@),
{
    let mut i: u32 = 0;
    while i < k
        invariant
            i <= k,
            out@ == old(out)@ + spaces(i as int),
            is_ascii_bytes(old(out)@) ==> is_ascii_bytes(out@),
        decreases k - i,
    {
        push_byte(out, 32u8);
        i = i + 1;
        proof {
            assert(spaces(i as int) =~= spaces(i - 1).push(32u8));
            assert(out@ =~= old(out)@ + spaces(i as int));
        }
    }
}

/// Appends the number `val` of field `k`, padded as `pad` says.
fn push_numeric(out: &mut Vec<u8>, k: Numeric, pad: Pad, val: i64)
    requires
        val > i64::MIN,
    ensures
        final(out)@ == old(out)@ + numeric_text(k, pad, val as int),
        is_ascii_bytes(old(out)@) ==> is_ascii_bytes(final(out)@),
{
    let w: u32 = match k {
        Numeric::Year => 4,
        Numeric::IsoYear => 4,
        Numeric::Ordinal => 3,
        Numeric::Nanosecond => 9,
        Numeric::NumDaysFromSun => 1,
        Numeric::WeekdayFromMon => 1,
        _ => 2,
    };
    let a: u64 = if val < 0 {
        (-val) as u64
    } else {
        val as u64
    };
    let d = digit_count_of(a);
    let signed_year = (k == Numeric::Year || k == Numeric::IsoYear) && !(0 <= val && val
        < 10000);
    let has_sign = signed_year || val < 0;
    let total: u32 = if signed_year {
        w + 1
    } else {
        w
    };
    let sign_len: u32 = if has_sign {
        1
    } else {
        0
    };
    let sign: u8 = if val < 0 {
        45
    } else {
        43
    };
    match pad {
        Pad::Bare => {
            if has_sign {
                push_byte(out, sign);
            }
            push_fixed_width(out, a, d);
        },
        Pad::Zero => {
            if has_sign {
                push_byte(out, sign);
            }
            let width = total - sign_len;
            push_fixed_width(out, a, if d < width {
                width
            } else {
                d
            });
        },
        Pad::Space => {
            let ghost before = out@;
            if total - sign_len > d {
                push_spaces(out, total - sign_len - d);
            } else {
                proof {
                    assert(spaces(total - sign_len - d) =~= Seq::<u8>::empty());
                    assert(out@ =~= before + spaces(total - sign_len - d));
                }
            }
            if has_sign {
                push_byte(out, sign);
            }
            push_fixed_width(out, a, d);
        },
    }
    proof {
        assert(final(out)@ =~= old(out)@ + numeric_text(k, pad, val as int));
    }
}

/// The value of the numeric field `k` of the local date-time `local`.
fn numeric_value_of(k: Numeric, local: &NaiveDateTime) -> (r: i64)
    ensures
        r == numeric_value(k, local@),
        r > i64::MIN,
{
    match k {
        Numeric::Hour => local.hour() as i64,
        Numeric::Hour12 => {
            let h = local.hour() % 12;
            if h == 0 {
                12
            } else {
                h as i64
            }
        },
        Numeric::Minute => local.minute() as i64,
        Numeric::Second => {
            let t = local.time();
            shown_second_of(&t) as i64
        },
        Numeric::Nanosecond => crate::naive::leap_free_of(local.nanosecond()) as i64,
        _ => date_value_of(k, local),
    }
}

/// The value of a numeric field `k` of the date of `local`.
fn date_value_of(k: Numeric, local: &NaiveDateTime) -> (r: i64)
    requires
        !(k is Hour || k is Hour12 || k is Minute || k is Second || k is Nanosecond),
    ensures
        r == numeric_value(k, local@),
        r > i64::MIN,
{
    proof {
        crate::naive::lemma_date_days_range();
    }
    let date = local.date();
    match k {
        Numeric::Year => date.year() as i64,
        Numeric::YearDiv100 => div_100_of(date.year() as i64),
        Numeric::YearMod100 => mod_100_of(date.year() as i64),
        Numeric::Month => date.month() as i64,
        Numeric::Day => date.day() as i64,
        Numeric::Ordinal => date.ordinal() as i64,
        Numeric::WeekFromSun => {
            let o = date.ordinal() as i64;
            let wd = date.weekday().num_days_from_monday() as i64;
            (o - (wd + 1) % 7 + 7) / 7
        },
        Numeric::WeekFromMon => {
            let o = date.ordinal() as i64;
            let wd = date.weekday().num_days_from_monday() as i64;
            (o - wd + 7) / 7
        },
        Numeric::IsoYear => date.isoweekdate().0 as i64,
        Numeric::IsoYearDiv100 => div_100_of(date.isoweekdate().0 as i64),
        Numeric::IsoYearMod100 => mod_100_of(date.isoweekdate().0 as i64),
        Numeric::IsoWeek => date.isoweekdate().1 as i64,
        Numeric::NumDaysFromSun => ((date.weekday().num_days_from_monday() + 1) % 7) as i64,
        Numeric::WeekdayFromMon => (date.weekday().num_days_from_monday() + 1) as i64,
        _ => 0,
    }
}

/// `y` divided by 100, rounded down.
fn div_100_of(y: i64) -> (r: i64)
    requires
        i32::MIN <= y <= i32::MAX,
    ensures
        r == y / 100,
{
    if y >= 0 {
        y / 100
    } else {
        -((-y + 99) / 100)
    }
}

/// `y` modulo 100, from 0 to 99.
fn mod_100_of(y: i64) -> (r: i64)
    requires
        i32::MIN <= y <= i32::MAX,
    ensures
        r == y % 100,
{
    if y >= 0 {
        y % 100
    } else {
        let q = -((-y + 99) / 100);
        y - q * 100
    }
}

/// Appends `Z` for an offset of less than a minute either way, otherwise
/// the offset.
fn push_zulu_or_offset(out: &mut Vec<u8>, fix: i32, colon: bool)
    requires
        offset_in_range(fix as int),
    ensures
        final(out)@ == old(out)@ + zulu_or_offset(fix as int, colon),
        is_ascii_bytes(old(out)@) ==> is_ascii_bytes(final(out)@),
{
    if -60 < fix && fix < 60 {
        push_byte(out, 90u8);
    } else {
        push_offset_hhmm(out, fix, colon);
    }
}

/// Appends the text of a piece of fixed form.
fn push_fixed(out: &mut Vec<u8>, f: Fixed, local: &NaiveDateTime, fix: i32, name: &[u8])
    requires
        offset_in_range(fix as int),
        is_ascii_bytes(name@),
    ensures
        final(out)@ == old(out)@ + fixed_text(f, local@, fix as int, name@),
        is_ascii_bytes(old(out)@) ==> is_ascii_bytes(final(out)@),
{
    let nano = crate::naive::leap_free_of(local.nanosecond());
    proof {
        use_type_invariant(local);
        local.lemma_inv();
        crate::naive::lemma_date_days_range();
        assert(nano < 1_000_000_000);
    }
    match f {
        Fixed::ShortMonthName => push_short_month(out, local.date().month()),
        Fixed::LongMonthName => {
            let m = local.date().month();
            push_short_month(out, m);
            let suffix = long_month_suffix_bytes(m);
            push_all(out, suffix.as_slice());
            proof {
                assert(final(out)@ =~= old(out)@ + fixed_text(f, local@, fix as int, name@));
            }
        },
        Fixed::ShortWeekdayName => push_short_weekday(out, local.weekday().num_days_from_monday()),
        Fixed::LongWeekdayName => {
            let w = local.weekday().num_days_from_monday();
            push_short_weekday(out, w);
            let suffix = long_weekday_suffix_bytes(w);
            push_all(out, suffix.as_slice());
            proof {
                assert(final(out)@ =~= old(out)@ + fixed_text(f, local@, fix as int, name@));
            }
        },
        Fixed::LowerAmPm => {
            if local.hour() < 12 {
                push_byte(out, 97u8);
            } else {
                push_byte(out, 112u8);
            }
            push_byte(out, 109u8);
            proof {
                assert(final(out)@ =~= old(out)@ + fixed_text(f, local@, fix as int, name@));
            }
        },
        Fixed::UpperAmPm => {
            if local.hour() < 12 {
                push_byte(out, 65u8);
            } else {
                push_byte(out, 80u8);
            }
            push_byte(out, 77u8);
            proof {
                assert(final(out)@ =~= old(out)@ + fixed_text(f, local@, fix as int, name@));
            }
        },
        Fixed::Nanosecond => push_fraction(out, nano),
        Fixed::Nanosecond3 => {
            push_byte(out, 46u8);
            push_fixed_width(out, (nano / 1_000_000) as u64, 3);
            proof {
                assert(final(out)@ =~= old(out)@ + fixed_text(f, local@, fix as int, name@));
            }
        },
        Fixed::Nanosecond6 => {
            push_byte(out, 46u8);
            push_fixed_width(out, (nano / 1_000) as u64, 6);
            proof {
                assert(final(out)@ =~= old(out)@ + fixed_text(f, local@, fix as int, name@));
            }
        },
        Fixed::Nanosecond9 => {
            push_byte(out, 46u8);
            push_fixed_width(out, nano as u64, 9);
            proof {
                assert(final(out)@ =~= old(out)@ + fixed_text(f, local@, fix as int, name@));
            }
        },
        Fixed::TimezoneName => push_all(out, name),
        Fixed::TimezoneOffsetColon => push_offset_hhmm(out, fix, true),
        Fixed::TimezoneOffsetColonZ => push_zulu_or_offset(out, fix, true),
        Fixed::TimezoneOffset => push_offset_hhmm(out, fix, false),
        Fixed::TimezoneOffsetZ => push_zulu_or_offset(out, fix, false),
        Fixed::RFC2822 => push_rfc2822(out, local, fix),
        Fixed::RFC3339 => push_rfc3339(out, local, fix),
    }
}

/// Appends the text of one item, keeping the text valid UTF-8; gives
/// `false`, appending nothing, for an error item.
fn push_item(out: &mut Vec<u8>, it: &Item, local: &NaiveDateTime, fix: i32, name: &[u8]) -> (r: bool)
    requires
        offset_in_range(fix as int),
        is_ascii_bytes(name@),
        valid_utf8(old(out)@),
    ensures
        r == !(it@ is Error),
        match item_text(it@, local@, fix as int, name@) {
            Some(t) => final(out)@ == old(out)@ + t,
            None => final(out)@ == old(out)@,
        },
        valid_utf8(final(out)@),
{
    match it {
        Item::Literal(l) => {
            let b = l.as_str().as_bytes();
            proof {
                vstd::utf8::encode_utf8_valid_utf8(l@);
                vstd::utf8::valid_utf8_concat(old(out)@, b@);
            }
            push_all(out, b);
            true
        },
        Item::Space(sp) => {
            let b = sp.as_str().as_bytes();
            proof {
                vstd::utf8::encode_utf8_valid_utf8(sp@);
                vstd::utf8::valid_utf8_concat(old(out)@, b@);
            }
            push_all(out, b);
            true
        },
        Item::Numeric(k, p) => {
            let mut piece: Vec<u8> = Vec::new();
            push_numeric(&mut piece, *k, *p, numeric_value_of(*k, local));
            proof {
                assert(is_ascii_bytes(Seq::<u8>::empty()));
                lemma_ascii_utf8(piece@);
                vstd::utf8::valid_utf8_concat(old(out)@, piece@);
                assert(piece@ =~= Seq::<u8>::empty() + piece@);
            }
            push_all(out, piece.as_slice());
            true
        },
        Item::Fixed(f) => {
            let mut piece: Vec<u8> = Vec::new();
            push_fixed(&mut piece, *f, local, fix, name);
            proof {
                assert(is_ascii_bytes(Seq::<u8>::empty()));
                lemma_ascii_utf8(piece@);
                vstd::utf8::valid_utf8_concat(old(out)@, piece@);
                assert(piece@ =~= Seq::<u8>::empty() + piece@);
            }
            push_all(out, piece.as_slice());
            true
        },
        Item::Error => false,
    }
}

/// Once an error item is among the first `k` items, the whole list has no
/// text.
pub proof fn lemma_items_text_none(items: Seq<ItemView>, k: int, v: (int, int), fix: int, name: Seq<u8>)
    requires
        0 <= k <= items.len(),
        items_text(items.take(k), v, fix, name) is None,
    ensures
        items_text(items, v, fix, name) is None,
    decreases items.len() - k,
{
    if k < items.len() {
        assert(items.take(k + 1).drop_last() =~= items.take(k));
        lemma_items_text_none(items, k + 1, v, fix, name);
    } else {
        assert(items.take(k) =~= items);
    }
}

/// The text of the items for the local date-time `local` at offset `fix`
/// named `name`, or `None` when one of them is an error.
fn format_items_bytes(items: &[Item], local: &NaiveDateTime, fix: i32, name: &[u8]) -> (r: Option<Vec<u8>>)
    requires
        offset_in_range(fix as int),
        is_ascii_bytes(name@),
    ensures
        match r {
            Some(b) => items_text(items_view(items@), local@, fix as int, name@) == Some(b@)
                && valid_utf8(b@),
            None => items_text(items_view(items@), local@, fix as int, name@) is None,
        },
{
    let ghost iv = items_view(items@);
    let mut out: Vec<u8> = Vec::new();
    let mut k: usize = 0;
    proof {
        assert(iv.take(0) =~= Seq::<ItemView>::empty());
        assert(out@ =~= Seq::<u8>::empty());
        assert(valid_utf8(Seq::<u8>::empty()));
    }
    while k < items.len()
        invariant
            iv == items_view(items@),
            k <= items@.len(),
            offset_in_range(fix as int),
            is_ascii_bytes(name@),
            items_text(iv.take(k as int), local@, fix as int, name@) == Some(out@),
            valid_utf8(out@),
        decreases items@.len() - k,
    {
        proof {
            assert(iv.take(k + 1).drop_last() =~= iv.take(k as int));
            assert(iv.take(k + 1).last() == items@[k as int]@);
        }
        let ok = push_item(&mut out, &items[k], local, fix, name);
        if !ok {
            proof {
                lemma_items_text_none(iv, k + 1, local@, fix as int, name@);
            }
            return None;
        }
        k = k + 1;
    }
    proof {
        assert(iv.take(k as int) =~= iv);
    }
    Some(out)
}

/// The RFC 3339 and RFC 2822 texts of a date-time are what the items of
/// those forms write.
pub proof fn lemma_rfc_items(v: (int, int), fix: int, name: Seq<u8>)
    ensures
        items_text(seq![ItemView::Fixed(Fixed::RFC3339)], v, fix, name) == Some(rfc3339_text(v, fix)),
        items_text(seq![ItemView::Fixed(Fixed::RFC2822)], v, fix, name) == Some(rfc2822_text(v, fix)),
{
    let a = seq![ItemView::Fixed(Fixed::RFC3339)];
    let b = seq![ItemView::Fixed(Fixed::RFC2822)];
    assert(a.drop_last() =~= Seq::<ItemView>::empty());
    assert(b.drop_last() =~= Seq::<ItemView>::empty());
    assert(items_text(Seq::<ItemView>::empty(), v, fix, name) == Some(Seq::<u8>::empty()));
    assert(items_text(a.drop_last(), v, fix, name) == Some(Seq::<u8>::empty()));
    assert(items_text(b.drop_last(), v, fix, name) == Some(Seq::<u8>::empty()));
    assert(a.last() == ItemView::Fixed(Fixed::RFC3339));
    assert(b.last() == ItemView::Fixed(Fixed::RFC2822));
    assert(Seq::<u8>::empty() + rfc3339_text(v, fix) =~= rfc3339_text(v, fix));
    assert(Seq::<u8>::empty() + rfc2822_text(v, fix) =~= rfc2822_text(v, fix));
}

} // verus!
