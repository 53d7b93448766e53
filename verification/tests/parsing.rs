use lib::datetime::DateTime;
use lib::items::{strftime_items, Fixed, Item};
use lib::naive::Weekday;
use lib::offset::{FixedOffset, UTC};
use lib::parse::{parse, Parsed};
use lib::scan::ParseError;

#[test]
fn rfc3339_errors() {
    assert_eq!(DateTime::parse_from_rfc3339("2015-02-18T23:16:09"), Err(ParseError::TooShort));
    assert_eq!(DateTime::parse_from_rfc3339("2015-02-18X23:16:09Z"), Err(ParseError::Invalid));
    assert_eq!(DateTime::parse_from_rfc3339("2015-13-18T23:16:09Z"), Err(ParseError::OutOfRange));
    assert_eq!(DateTime::parse_from_rfc3339("2015-02-30T23:16:09Z"), Err(ParseError::OutOfRange));
    assert_eq!(DateTime::parse_from_rfc3339("2015-02-18T23:16:09Z "), Err(ParseError::TooLong));
    assert_eq!(DateTime::parse_from_rfc3339("2015-02-18T23:16:09+24:00"), Err(ParseError::OutOfRange));
    assert_eq!(DateTime::parse_from_rfc3339("2015-02-18T23:16:09+05:60"), Err(ParseError::OutOfRange));
    assert_eq!(
        DateTime::parse_from_rfc3339("2015-02-18t23:16:09.5z"),
        Ok(FixedOffset::east(0).ymd(2015, 2, 18).and_hms_milli(23, 16, 9, 500))
    );
}

#[test]
fn rfc2822_forms() {
    let utc = FixedOffset::east(0);
    assert_eq!(
        DateTime::parse_from_rfc2822("18 Feb 2015 23:16 +0000"),
        Ok(utc.ymd(2015, 2, 18).and_hms(23, 16, 0))
    );
    assert_eq!(
        DateTime::parse_from_rfc2822("wed, 18 FEB 15 23:16:09 GMT"),
        Ok(utc.ymd(2015, 2, 18).and_hms(23, 16, 9))
    );
    assert_eq!(
        DateTime::parse_from_rfc2822("Fri, 3 Jul 87 1:02:03 EST"),
        Err(ParseError::Invalid)
    );
    assert_eq!(
        DateTime::parse_from_rfc2822("Fri, 3 Jul 87 01:02:03 EST"),
        Ok(FixedOffset::west(5 * 3600).ymd(1987, 7, 3).and_hms(1, 2, 3))
    );
    assert_eq!(
        DateTime::parse_from_rfc2822("  3 Jul 115  01 : 02 : 03   pdt"),
        Ok(FixedOffset::west(7 * 3600).ymd(2015, 7, 3).and_hms(1, 2, 3))
    );
    assert_eq!(
        DateTime::parse_from_rfc2822("Thu, 18 Feb 2015 23:16:09 +0000"),
        Err(ParseError::Impossible)
    );
    assert_eq!(
        DateTime::parse_from_rfc2822("Wed, 18 Feb 2015 23:16:09 -0000"),
        Err(ParseError::NotEnough)
    );
    assert_eq!(
        DateTime::parse_from_rfc2822("Wed, 18 Feb 2015 23:16:09 XYZ"),
        Err(ParseError::NotEnough)
    );
    assert_eq!(DateTime::parse_from_rfc2822("Wed 18 Feb 2015 23:16:09 +0000"), Err(ParseError::Invalid));
    assert_eq!(DateTime::parse_from_rfc2822("Wed, 18 Feb 2015"), Err(ParseError::TooShort));
    assert_eq!(DateTime::parse_from_rfc2822("Wed, 18 Foo 2015 23:16:09 +0000"), Err(ParseError::Invalid));
}

#[test]
fn from_str_forms() {
    assert_eq!(
        " 2015 - 2 - 18 T 23 : 16 : 9.15 +05 : 30 ".parse::<DateTime<FixedOffset>>(),
        Ok(FixedOffset::east(5 * 3600 + 30 * 60).ymd(2015, 2, 18).and_hms_milli(23, 16, 9, 150))
    );
    assert_eq!(
        "-0044-3-15T12:00:00Z".parse::<DateTime<UTC>>(),
        Ok(UTC.ymd(-44, 3, 15).and_hms(12, 0, 0))
    );
    assert_eq!("2015-2-18T23:16:9.15Zx".parse::<DateTime<UTC>>(), Err(ParseError::TooLong));
    assert_eq!("2015-2-18t23:16:9Z".parse::<DateTime<UTC>>(), Err(ParseError::Invalid));
}

#[test]
fn format_strings_read() {
    assert_eq!(
        DateTime::parse_from_str("2015-02-18T23:16:09+00:00", "%+"),
        DateTime::parse_from_rfc3339("2015-02-18T23:16:09+00:00")
    );
    assert_eq!(
        DateTime::parse_from_str("Wed 18 Feb 2015 1:2:3 +0100", "%a %d %b %Y %H:%M:%S %z"),
        Ok(FixedOffset::east(3600).ymd(2015, 2, 18).and_hms(1, 2, 3))
    );
    assert_eq!(
        DateTime::parse_from_str("2015-02-18 23:16:09 UTC", "%Y-%m-%d %H:%M:%S %Z"),
        Err(ParseError::BadFormat)
    );
    assert_eq!(
        DateTime::parse_from_str("2015-02-18 23:16:09", "%Y-%m-%d %H:%M:%S %Q"),
        Err(ParseError::BadFormat)
    );
    assert_eq!(
        DateTime::parse_from_str("2015-02-18 23:16:09 +0000", "%Y-%m-%d %H:%M:%S %z %Y"),
        Err(ParseError::TooShort)
    );
    assert_eq!(
        DateTime::parse_from_str("2015-02-18 23:16:09 +0000 2016", "%Y-%m-%d %H:%M:%S %z %Y"),
        Err(ParseError::Impossible)
    );
    assert_eq!(
        DateTime::parse_from_str("2015-02-18 23:16:09.5 +0000", "%F %T%.3f %z"),
        Ok(FixedOffset::east(0).ymd(2015, 2, 18).and_hms_milli(23, 16, 9, 500))
    );
    assert_eq!(
        UTC.datetime_from_str("2015-02-18 23:16:09 +0100", "%F %T %z"),
        Err(ParseError::Impossible)
    );
    assert_eq!(
        FixedOffset::east(3600).datetime_from_str("2015-02-18 23:16:09 +0100", "%F %T %z"),
        Ok(FixedOffset::east(3600).ymd(2015, 2, 18).and_hms(23, 16, 9))
    );
}

#[test]
fn parse_fills_fields() {
    let items = strftime_items("%a, %d %b");
    let p = parse(Parsed::new(), "Mon, 05 Jan", &items).unwrap();
    assert_eq!(p.weekday, Some(Weekday::Mon));
    assert_eq!(p.day, Some(5));
    assert_eq!(p.month, Some(1));
    assert_eq!(p.year, None);
    assert_eq!(p.to_naive_datetime().err(), Some(ParseError::NotEnough));
    let p = parse(Parsed::new(), "2015", &[Item::Fixed(Fixed::RFC3339)]);
    assert_eq!(p.err(), Some(ParseError::TooShort));
}

#[test]
fn format_strings_with_names_and_twelve_hour_clock() {
    assert_eq!(
        DateTime::parse_from_str(
            "sunday, FEBRUARY 8, 15 3:04:05 PM +0530",
            "%A, %B %e, %y %I:%M:%S %p %z"
        ),
        Ok(FixedOffset::east(5 * 3600 + 30 * 60).ymd(2015, 2, 8).and_hms(15, 4, 5))
    );
    assert_eq!(
        DateTime::parse_from_str("Sun, Feb 8, 2015 12:00 am +0000", "%A, %B %e, %Y %I:%M %P %z"),
        Ok(FixedOffset::east(0).ymd(2015, 2, 8).and_hms(0, 0, 0))
    );
    assert_eq!(
        DateTime::parse_from_str("2015 039 03:04 +0000", "%Y %j %H:%M %z"),
        Ok(FixedOffset::east(0).ymd(2015, 2, 8).and_hms(3, 4, 0))
    );
    assert_eq!(
        DateTime::parse_from_str("2015-02-08 040 03:04 +0000", "%Y-%m-%d %j %H:%M %z"),
        Err(ParseError::Impossible)
    );
    assert_eq!(
        DateTime::parse_from_str("2015-02-08 7 03:04 +0000", "%F %u %H:%M %z"),
        Ok(FixedOffset::east(0).ymd(2015, 2, 8).and_hms(3, 4, 0))
    );
    assert_eq!(
        DateTime::parse_from_str("2015-02-08 1 03:04 +0000", "%F %u %H:%M %z"),
        Err(ParseError::Impossible)
    );
    assert_eq!(
        DateTime::parse_from_str("2015-02-08 8 03:04 +0000", "%F %u %H:%M %z"),
        Err(ParseError::OutOfRange)
    );
    assert_eq!(
        DateTime::parse_from_str("201502 08 03:04 +0000", "%C%y%m %d %H:%M %z"),
        Ok(FixedOffset::east(0).ymd(2015, 2, 8).and_hms(3, 4, 0))
    );
    assert_eq!(
        DateTime::parse_from_str("2015-02-08 03:04 +0000", "%F %I:%M %z"),
        Err(ParseError::NotEnough)
    );
    assert_eq!(
        DateTime::parse_from_str("2015-02-08 15:04 PM +0000", "%F %H:%M %p %z"),
        Ok(FixedOffset::east(0).ymd(2015, 2, 8).and_hms(15, 4, 0))
    );
    assert_eq!(
        DateTime::parse_from_str("2015-02-08 15:04 AM +0000", "%F %H:%M %p %z"),
        Err(ParseError::Impossible)
    );
    assert_eq!(
        DateTime::parse_from_str("2015-02-08 13:04 +0000", "%F %I:%M %z"),
        Err(ParseError::OutOfRange)
    );
    assert_eq!(
        DateTime::parse_from_str("1915 2-8 03:04 +0000", "%Y %m-%d %H:%M %z %y"),
        Err(ParseError::TooShort)
    );
}

#[test]
fn week_dates_read() {
    let expected = Ok(FixedOffset::east(0).ymd(2015, 2, 8).and_hms(3, 4, 0));
    assert_eq!(
        DateTime::parse_from_str("2015-W06-7 03:04 +0000", "%G-W%V-%u %H:%M %z"),
        expected
    );
    assert_eq!(
        DateTime::parse_from_str("15-W06-7 03:04 +0000", "%g-W%V-%u %H:%M %z"),
        expected
    );
    assert_eq!(DateTime::parse_from_str("2015 06 0 03:04 +0000", "%Y %U %w %H:%M %z"), expected);
    assert_eq!(DateTime::parse_from_str("2015 05 7 03:04 +0000", "%Y %W %u %H:%M %z"), expected);
    assert_eq!(
        DateTime::parse_from_str("2009-W53-7 00:00 +0000", "%G-W%V-%u %H:%M %z"),
        Ok(FixedOffset::east(0).ymd(2010, 1, 3).and_hms(0, 0, 0))
    );
    assert_eq!(
        DateTime::parse_from_str("2015 00 4 00:00 +0000", "%Y %U %w %H:%M %z"),
        Ok(FixedOffset::east(0).ymd(2015, 1, 1).and_hms(0, 0, 0))
    );
    assert_eq!(
        DateTime::parse_from_str("2015 00 0 00:00 +0000", "%Y %U %w %H:%M %z"),
        Err(ParseError::OutOfRange)
    );
    assert_eq!(
        DateTime::parse_from_str("2014-W53-1 00:00 +0000", "%G-W%V-%u %H:%M %z"),
        Err(ParseError::OutOfRange)
    );
    assert_eq!(
        DateTime::parse_from_str("2015-02-08 2015-W07 03:04 +0000", "%F %G-W%V %H:%M %z"),
        Err(ParseError::Impossible)
    );
    assert_eq!(
        DateTime::parse_from_str("2015-02-08 2015-W06 03:04 +0000", "%F %G-W%V %H:%M %z"),
        expected
    );
    assert_eq!(
        DateTime::parse_from_str("2015 06 03:04 +0000", "%Y %U %H:%M %z"),
        Err(ParseError::NotEnough)
    );
}
