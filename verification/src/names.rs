//! The English names that date-times are written and read with: days of
//! the week, months, the half of the day, and the zones of RFC 2822.
use vstd::prelude::*;
use crate::calendar::weekday_index;
use crate::format::fixed_text;
use crate::items::Fixed;
use crate::naive::date_of;
use crate::scan::{ParseError, scan_zone_2822, is_alpha, alpha_end};

verus! {

/// The day of the week of the local date-time `v`, written in full (`%A`)
/// and in short (`%a`), is its English name: Monday for the day after
/// Sunday, and so on through the week.
pub proof fn lemma_weekday_names(v: (int, int), fix: int, name: Seq<u8>)
    ensures
        ({
            let w = weekday_index(v.0 / 86400);
            let full = fixed_text(Fixed::LongWeekdayName, v, fix, name);
            let short = fixed_text(Fixed::ShortWeekdayName, v, fix, name);
            &&& w == 0 ==> full == seq![77u8, 111u8, 110u8, 100u8, 97u8, 121u8]
                && short == seq![77u8, 111u8, 110u8]
            &&& w == 1 ==> full == seq![84u8, 117u8, 101u8, 115u8, 100u8, 97u8, 121u8]
                && short == seq![84u8, 117u8, 101u8]
            &&& w == 2 ==> full == seq![87u8, 101u8, 100u8, 110u8, 101u8, 115u8, 100u8, 97u8, 121u8]
                && short == seq![87u8, 101u8, 100u8]
            &&& w == 3 ==> full == seq![84u8, 104u8, 117u8, 114u8, 115u8, 100u8, 97u8, 121u8]
                && short == seq![84u8, 104u8, 117u8]
            &&& w == 4 ==> full == seq![70u8, 114u8, 105u8, 100u8, 97u8, 121u8]
                && short == seq![70u8, 114u8, 105u8]
            &&& w == 5 ==> full == seq![83u8, 97u8, 116u8, 117u8, 114u8, 100u8, 97u8, 121u8]
                && short == seq![83u8, 97u8, 116u8]
            &&& w == 6 ==> full == seq![83u8, 117u8, 110u8, 100u8, 97u8, 121u8]
                && short == seq![83u8, 117u8, 110u8]
        }),
{
    let w = weekday_index(v.0 / 86400);
    let full = fixed_text(Fixed::LongWeekdayName, v, fix, name);
    if w == 0 {
        assert(full =~= seq![77u8, 111u8, 110u8, 100u8, 97u8, 121u8]);
    } else if w == 1 {
        assert(full =~= seq![84u8, 117u8, 101u8, 115u8, 100u8, 97u8, 121u8]);
    } else if w == 2 {
        assert(full =~= seq![87u8, 101u8, 100u8, 110u8, 101u8, 115u8, 100u8, 97u8, 121u8]);
    } else if w == 3 {
        assert(full =~= seq![84u8, 104u8, 117u8, 114u8, 115u8, 100u8, 97u8, 121u8]);
    } else if w == 4 {
        assert(full =~= seq![70u8, 114u8, 105u8, 100u8, 97u8, 121u8]);
    } else if w == 5 {
        assert(full =~= seq![83u8, 97u8, 116u8, 117u8, 114u8, 100u8, 97u8, 121u8]);
    } else if w == 6 {
        assert(full =~= seq![83u8, 117u8, 110u8, 100u8, 97u8, 121u8]);
    }
}

/// Day 0, 1970-01-01, is a Thursday, and each day's day of the week is the
/// one after that of the day before.
pub proof fn lemma_weekday_succession(n: int)
    ensures
        weekday_index(0) == 3,
        weekday_index(n + 1) == (weekday_index(n) + 1) % 7,
{
}

/// The month of the local date-time `v`, written in short (`%b`, and in
/// RFC 2822) and in full (`%B`), is its English name: January for month 1,
/// and so on through the year.
pub proof fn lemma_month_names(v: (int, int), fix: int, name: Seq<u8>)
    ensures
        ({
            let m = date_of(v).1;
            let full = fixed_text(Fixed::LongMonthName, v, fix, name);
            let short = fixed_text(Fixed::ShortMonthName, v, fix, name);
            &&& m == 1 ==> short == seq![74u8, 97u8, 110u8]
                && full == seq![74u8, 97u8, 110u8, 117u8, 97u8, 114u8, 121u8]
            &&& m == 2 ==> short == seq![70u8, 101u8, 98u8]
                && full == seq![70u8, 101u8, 98u8, 114u8, 117u8, 97u8, 114u8, 121u8]
            &&& m == 3 ==> short == seq![77u8, 97u8, 114u8]
                && full == seq![77u8, 97u8, 114u8, 99u8, 104u8]
            &&& m == 4 ==> short == seq![65u8, 112u8, 114u8]
                && full == seq![65u8, 112u8, 114u8, 105u8, 108u8]
            &&& m == 5 ==> short == seq![77u8, 97u8, 121u8]
                && full == seq![77u8, 97u8, 121u8]
            &&& m == 6 ==> short == seq![74u8, 117u8, 110u8]
                && full == seq![74u8, 117u8, 110u8, 101u8]
            &&& m == 7 ==> short == seq![74u8, 117u8, 108u8]
                && full == seq![74u8, 117u8, 108u8, 121u8]
            &&& m == 8 ==> short == seq![65u8, 117u8, 103u8]
                && full == seq![65u8, 117u8, 103u8, 117u8, 115u8, 116u8]
            &&& m == 9 ==> short == seq![83u8, 101u8, 112u8]
                && full == seq![83u8, 101u8, 112u8, 116u8, 101u8, 109u8, 98u8, 101u8, 114u8]
            &&& m == 10 ==> short == seq![79u8, 99u8, 116u8]
                && full == seq![79u8, 99u8, 116u8, 111u8, 98u8, 101u8, 114u8]
            &&& m == 11 ==> short == seq![78u8, 111u8, 118u8]
                && full == seq![78u8, 111u8, 118u8, 101u8, 109u8, 98u8, 101u8, 114u8]
            &&& m == 12 ==> short == seq![68u8, 101u8, 99u8]
                && full == seq![68u8, 101u8, 99u8, 101u8, 109u8, 98u8, 101u8, 114u8]
        }),
{
    let m = date_of(v).1;
    let full = fixed_text(Fixed::LongMonthName, v, fix, name);
    if m == 1 {
        assert(full =~= seq![74u8, 97u8, 110u8, 117u8, 97u8, 114u8, 121u8]);
    } else if m == 2 {
        assert(full =~= seq![70u8, 101u8, 98u8, 114u8, 117u8, 97u8, 114u8, 121u8]);
    } else if m == 3 {
        assert(full =~= seq![77u8, 97u8, 114u8, 99u8, 104u8]);
    } else if m == 4 {
        assert(full =~= seq![65u8, 112u8, 114u8, 105u8, 108u8]);
    } else if m == 5 {
        assert(full =~= seq![77u8, 97u8, 121u8]);
    } else if m == 6 {
        assert(full =~= seq![74u8, 117u8, 110u8, 101u8]);
    } else if m == 7 {
        assert(full =~= seq![74u8, 117u8, 108u8, 121u8]);
    } else if m == 8 {
        assert(full =~= seq![65u8, 117u8, 103u8, 117u8, 115u8, 116u8]);
    } else if m == 9 {
        assert(full =~= seq![83u8, 101u8, 112u8, 116u8, 101u8, 109u8, 98u8, 101u8, 114u8]);
    } else if m == 10 {
        assert(full =~= seq![79u8, 99u8, 116u8, 111u8, 98u8, 101u8, 114u8]);
    } else if m == 11 {
        assert(full =~= seq![78u8, 111u8, 118u8, 101u8, 109u8, 98u8, 101u8, 114u8]);
    } else if m == 12 {
        assert(full =~= seq![68u8, 101u8, 99u8, 101u8, 109u8, 98u8, 101u8, 114u8]);
    }
}

/// Before noon the half of the day is written `AM` (`%p`) or `am` (`%P`),
/// from noon on `PM` or `pm`.
pub proof fn lemma_half_day_names(v: (int, int), fix: int, name: Seq<u8>)
    ensures
        v.0 % 86400 < 43200 ==> fixed_text(Fixed::UpperAmPm, v, fix, name) == seq![65u8, 77u8]
            && fixed_text(Fixed::LowerAmPm, v, fix, name) == seq![97u8, 109u8],
        v.0 % 86400 >= 43200 ==> fixed_text(Fixed::UpperAmPm, v, fix, name) == seq![80u8, 77u8]
            && fixed_text(Fixed::LowerAmPm, v, fix, name) == seq![112u8, 109u8],
{
}

/// A zone name of RFC 2822 standing as a word at `i` reads as the offset
/// RFC 2822 gives it: GMT as UTC, EST as -05:00, EDT as -04:00, CST as
/// -06:00, CDT as -05:00, MST as -07:00, MDT as -06:00, PST as -08:00 and
/// PDT as -07:00.
pub proof fn lemma_rfc2822_zone_names(s: Seq<u8>, i: int)
    requires
        0 <= i,
        i + 3 <= s.len(),
        i + 3 == s.len() || !is_alpha(s[i + 3]),
    ensures
        ({
            let r = scan_zone_2822(s, i);
            let (a, b, c) = (s[i], s[i + 1], s[i + 2]);
            &&& (a, b, c) == (71u8, 77u8, 84u8) ==> r == Ok::<(int, Option<int>), ParseError>(
                (i + 3, Some(0int)),
            )
            &&& (a, b, c) == (69u8, 83u8, 84u8) ==> r == Ok::<(int, Option<int>), ParseError>(
                (i + 3, Some(-18000int)),
            )
            &&& (a, b, c) == (69u8, 68u8, 84u8) ==> r == Ok::<(int, Option<int>), ParseError>(
                (i + 3, Some(-14400int)),
            )
            &&& (a, b, c) == (67u8, 83u8, 84u8) ==> r == Ok::<(int, Option<int>), ParseError>(
                (i + 3, Some(-21600int)),
            )
            &&& (a, b, c) == (67u8, 68u8, 84u8) ==> r == Ok::<(int, Option<int>), ParseError>(
                (i + 3, Some(-18000int)),
            )
            &&& (a, b, c) == (77u8, 83u8, 84u8) ==> r == Ok::<(int, Option<int>), ParseError>(
                (i + 3, Some(-25200int)),
            )
            &&& (a, b, c) == (77u8, 68u8, 84u8) ==> r == Ok::<(int, Option<int>), ParseError>(
                (i + 3, Some(-21600int)),
            )
            &&& (a, b, c) == (80u8, 83u8, 84u8) ==> r == Ok::<(int, Option<int>), ParseError>(
                (i + 3, Some(-28800int)),
            )
            &&& (a, b, c) == (80u8, 68u8, 84u8) ==> r == Ok::<(int, Option<int>), ParseError>(
                (i + 3, Some(-25200int)),
            )
        }),
{
    if is_alpha(s[i]) && is_alpha(s[i + 1]) && is_alpha(s[i + 2]) {
        assert(alpha_end(s, i + 3) == i + 3);
        assert(alpha_end(s, i) == i + 3) by {
            reveal_with_fuel(alpha_end, 4);
        }
        assert(s[i + 0] == s[i]);
    }
}

/// The zone name UT standing as a word at `i` reads as UTC.
pub proof fn lemma_rfc2822_zone_ut(s: Seq<u8>, i: int)
    requires
        0 <= i,
        i + 2 <= s.len(),
        i + 2 == s.len() || !is_alpha(s[i + 2]),
        s[i] == 85u8 && s[i + 1] == 84u8,
    ensures
        scan_zone_2822(s, i) == Ok::<(int, Option<int>), ParseError>((i + 2, Some(0int))),
{
    assert(alpha_end(s, i + 2) == i + 2);
    assert(alpha_end(s, i) == i + 2) by {
        reveal_with_fuel(alpha_end, 3);
    }
    assert(s[i + 0] == s[i]);
}

} // verus!
