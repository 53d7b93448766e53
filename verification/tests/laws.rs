use lib::datetime::DateTime;
use lib::duration::Duration;
use lib::items::{Fixed, Item};
use lib::naive::{NaiveDate, NaiveTime, Weekday};
use lib::offset::{FixedOffset, UTC};

#[test]
fn rfc3339_text_reads_back() {
    let edt = FixedOffset::east(5 * 60 * 60);
    let cases = vec![
        edt.ymd(2015, 2, 18).and_hms_micro(23, 59, 59, 1_234_567),
        edt.ymd(2015, 2, 18).and_hms_milli(23, 16, 9, 150),
        FixedOffset::west(9 * 3600 + 30 * 60).ymd(1, 1, 1).and_hms_nano(0, 0, 0, 1),
        FixedOffset::east(0).ymd(9999, 12, 31).and_hms(23, 59, 59),
    ];
    for dt in cases {
        let text = dt.to_rfc3339();
        let back = DateTime::parse_from_rfc3339(&text).unwrap();
        assert_eq!(back, dt);
        assert_eq!(back.offset(), dt.offset());
        assert_eq!(back.to_rfc3339(), text);
    }
}

#[test]
fn rfc2822_text_reads_back() {
    let cases = vec![
        FixedOffset::west(8 * 3600).ymd(1987, 7, 3).and_hms(1, 2, 3),
        FixedOffset::east(5 * 3600).ymd(2015, 2, 18).and_hms_milli(23, 59, 59, 1_000),
        FixedOffset::east(0).ymd(200, 12, 1).and_hms(0, 0, 0),
        FixedOffset::east(13 * 3600 + 45 * 60).ymd(262_143, 1, 9).and_hms(12, 0, 30),
    ];
    for dt in cases {
        let text = dt.to_rfc2822();
        let back = DateTime::parse_from_rfc2822(&text).unwrap();
        assert_eq!(back, dt);
        assert_eq!(back.offset(), dt.offset());
        assert_eq!(back.to_rfc2822(), text);
    }
}

#[test]
fn local_date_time_reads_back_in_its_zone() {
    let dt = FixedOffset::west(3 * 3600).ymd(2020, 2, 29).and_hms_nano(22, 30, 0, 5);
    assert_eq!(DateTime::from_local(&dt.naive_local(), *dt.offset()), Some(dt.clone()));
    let utc = UTC.ymd(1969, 12, 31).and_hms(23, 59, 59);
    assert_eq!(DateTime::from_local(&utc.naive_local(), UTC), Some(utc));
}

#[test]
fn adding_then_subtracting_returns() {
    let dt = FixedOffset::east(3600).ymd(2014, 5, 6).and_hms_milli(7, 8, 9, 10);
    let d = Duration::milliseconds(-123_456_789);
    let later = dt.clone().checked_add(d).unwrap();
    assert_eq!(later.clone().checked_sub(d), Some(dt.clone()));
    assert_eq!(later.signed_duration_since(&dt), d);
}

#[test]
fn equality_and_order_follow_the_instant() {
    let a = UTC.ymd(2014, 5, 6).and_hms(7, 8, 9);
    let b = FixedOffset::east(4 * 3600).ymd(2014, 5, 6).and_hms(11, 8, 9);
    assert!(a == b);
    assert!(b == a);
    let c = UTC.ymd(2014, 5, 6).and_hms_nano(7, 8, 9, 1);
    assert!(a < c);
    assert!(c > a);
    assert!(a <= a.clone());
    let later = b.with_timezone(&UTC);
    assert!(later == a);
    assert_eq!(later.to_display_string(), "2014-05-06 07:08:09 UTC");
}

#[test]
fn rfc_forms_are_their_items() {
    let dt = FixedOffset::west(2 * 3600).ymd(2003, 7, 1).and_hms(10, 52, 37);
    assert_eq!(dt.format_with_items(&[Item::Fixed(Fixed::RFC2822)]), Some(dt.to_rfc2822()));
    assert_eq!(dt.format_with_items(&[Item::Fixed(Fixed::RFC3339)]), Some(dt.to_rfc3339()));
    assert_eq!(dt.format("%+"), Some(dt.to_rfc3339()));
    assert_eq!(dt.to_rfc2822(), "Tue, 1 Jul 2003 10:52:37 -0200");
}

#[test]
fn date_of_a_date_time_is_its_utc_date() {
    let dt = FixedOffset::east(10 * 3600).ymd(2014, 5, 6).and_hms(1, 0, 0);
    assert_eq!(dt.date().naive_local(), NaiveDate::from_ymd(2014, 5, 5));
    assert_eq!(dt.naive_local().date(), NaiveDate::from_ymd(2014, 5, 6));
}

#[test]
fn iso_week_dates_name_their_days() {
    let d = NaiveDate::from_ymd(2015, 2, 8);
    assert_eq!(d.isoweekdate(), (2015, 6, Weekday::Sun));
    assert_eq!(NaiveDate::from_isoywd_opt(2015, 6, Weekday::Sun), Some(d));
    assert_eq!(
        NaiveDate::from_isoywd_opt(2015, 53, Weekday::Sun),
        Some(NaiveDate::from_ymd(2016, 1, 3))
    );
    assert_eq!(
        NaiveDate::from_isoywd_opt(2009, 1, Weekday::Mon),
        Some(NaiveDate::from_ymd(2008, 12, 29))
    );
    assert_eq!(NaiveDate::from_isoywd_opt(2014, 53, Weekday::Mon), None);
    assert_eq!(NaiveDate::from_isoywd_opt(2015, 0, Weekday::Mon), None);
    for &(y, m, day) in &[(2010, 1, 3), (2008, 12, 29), (2000, 2, 29), (-5, 7, 1), (262143, 12, 31)] {
        let d = NaiveDate::from_ymd(y, m, day);
        let (iy, w, wd) = d.isoweekdate();
        assert_eq!(NaiveDate::from_isoywd_opt(iy, w, wd), Some(d));
    }
    assert_eq!(NaiveDate::from_ymd(262143, 12, 31).isoweekdate().0, 262144);
    assert_eq!(NaiveDate::from_isoywd_opt(262144, 1, Weekday::Sun), None);
}

#[test]
fn debug_text_reads_back() {
    let cases = vec![
        FixedOffset::east(4 * 3600).ymd(2014, 5, 6).and_hms(7, 8, 9),
        FixedOffset::west(9 * 3600 + 30 * 60).ymd(1, 1, 1).and_hms_nano(0, 0, 0, 1),
        FixedOffset::east(0).ymd(2016, 12, 31).and_hms_milli(23, 59, 59, 1_250),
        FixedOffset::west(60).ymd(9999, 12, 31).and_hms_micro(23, 59, 59, 999_999),
    ];
    for dt in cases {
        let text = dt.to_debug_string();
        assert_eq!(DateTime::parse_iso(&text), Ok(dt.clone()));
        assert_eq!(DateTime::parse_iso(&text).unwrap().offset(), dt.offset());
        assert_eq!(text.parse::<DateTime<FixedOffset>>(), Ok(dt));
    }
    let utc = UTC.ymd(2014, 5, 6).and_hms_milli(7, 8, 9, 150);
    let text = utc.to_debug_string();
    assert_eq!(text, "2014-05-06T07:08:09.150Z");
    assert_eq!(DateTime::parse_iso_utc(&text), Ok(utc.clone()));
    assert_eq!(text.parse::<DateTime<UTC>>(), Ok(utc));
}

#[test]
fn arithmetic_near_the_ends_keeps_the_zone() {
    let late = UTC.ymd(262143, 12, 31).and_hms(15, 59, 59).with_timezone(&FixedOffset::east(5 * 3600));
    let moved = late.clone().checked_add(Duration::seconds(6 * 3600)).unwrap();
    assert_eq!(moved.timestamp(), late.timestamp() + 6 * 3600);
    assert_eq!(*moved.offset(), FixedOffset::east(5 * 3600));
    assert_eq!(moved.naive_utc(), UTC.ymd(262143, 12, 31).and_hms(21, 59, 59).naive_utc());
    assert_eq!(late.clone().checked_add(Duration::seconds(9 * 3600)), None);
    let early = UTC.ymd(-262144, 1, 1).and_hms(8, 0, 0).with_timezone(&FixedOffset::west(5 * 3600));
    let back = early.clone().checked_sub(Duration::seconds(6 * 3600)).unwrap();
    assert_eq!(back.timestamp(), early.timestamp() - 6 * 3600);
    assert_eq!(*back.offset(), FixedOffset::west(5 * 3600));
    assert_eq!(early.checked_sub(Duration::seconds(9 * 3600)), None);
    let edge = UTC.ymd(262143, 12, 31).and_hms(23, 0, 0);
    let shifted = edge.with_timezone(&FixedOffset::east(3 * 3600));
    assert!(shifted == edge);
    assert_eq!(shifted.timestamp(), edge.timestamp());
    let built = DateTime::from_utc(edge.naive_utc(), FixedOffset::east(3 * 3600));
    assert!(built == edge);
}

#[test]
fn operators_agree_with_the_named_methods() {
    let dt = FixedOffset::east(3600).ymd(2014, 5, 6).and_hms_milli(7, 8, 9, 10);
    let d = Duration::milliseconds(90_061_001);
    let later = dt.clone() + d;
    assert_eq!(Some(later.clone()), dt.clone().checked_add(d));
    assert_eq!(*later.offset(), FixedOffset::east(3600));
    assert_eq!(later.to_rfc3339(), "2014-05-07T08:09:10.011+01:00");
    let earlier = dt.clone() - d;
    assert_eq!(Some(earlier.clone()), dt.clone().checked_sub(d));
    assert_eq!(earlier.to_rfc3339(), "2014-05-05T06:07:08.009+01:00");
    assert_eq!(later.clone() - dt.clone(), d);
    assert_eq!(dt - later, Duration::milliseconds(-90_061_001));
}

#[test]
fn time_of_day_wraps_at_the_ends() {
    let edge = UTC.ymd(262143, 12, 31).and_hms(23, 0, 0).with_timezone(&FixedOffset::east(3 * 3600));
    assert_eq!(edge.time(), NaiveTime::from_hms(2, 0, 0));
    let start = UTC.ymd(-262144, 1, 1).and_hms_milli(1, 0, 0, 250).with_timezone(&FixedOffset::west(2 * 3600));
    assert_eq!(start.time(), NaiveTime::from_hms_milli_opt(23, 0, 0, 250).unwrap());
    let dt = FixedOffset::east(5 * 3600).ymd(2014, 5, 6).and_hms(7, 8, 9);
    assert_eq!(dt.time(), NaiveTime::from_hms(7, 8, 9));
}
