use lib::items::{strftime_items, Fixed, Item, Pad};
use lib::offset::{FixedOffset, UTC};
use lib::parse::Numeric;

#[test]
fn strftime_items_of_a_format() {
    assert_eq!(
        strftime_items("%Y-%m-%d"),
        vec![
            Item::Numeric(Numeric::Year, Pad::Zero),
            Item::Literal("-".to_string()),
            Item::Numeric(Numeric::Month, Pad::Zero),
            Item::Literal("-".to_string()),
            Item::Numeric(Numeric::Day, Pad::Zero),
        ]
    );
    assert_eq!(
        strftime_items("%F"),
        vec![
            Item::Numeric(Numeric::Year, Pad::Zero),
            Item::Literal("-".to_string()),
            Item::Numeric(Numeric::Month, Pad::Zero),
            Item::Literal("-".to_string()),
            Item::Numeric(Numeric::Day, Pad::Zero),
        ]
    );
    assert_eq!(
        strftime_items("at  %-d%%é"),
        vec![
            Item::Literal("at".to_string()),
            Item::Space("  ".to_string()),
            Item::Numeric(Numeric::Day, Pad::Bare),
            Item::Literal("%".to_string()),
            Item::Literal("é".to_string()),
        ]
    );
    assert_eq!(
        strftime_items("%.3f%:z%n"),
        vec![
            Item::Fixed(Fixed::Nanosecond3),
            Item::Fixed(Fixed::TimezoneOffsetColon),
            Item::Space("\n".to_string()),
        ]
    );
    assert_eq!(strftime_items("%Y%Q%m"), vec![Item::Numeric(Numeric::Year, Pad::Zero), Item::Error]);
    assert_eq!(strftime_items("%-F"), vec![Item::Error]);
    assert_eq!(strftime_items("%"), vec![Item::Error]);
    assert_eq!(strftime_items(""), vec![]);
}

#[test]
fn format_writes_each_specifier() {
    let dt = FixedOffset::east(5 * 3600 + 30 * 60).ymd(2015, 2, 8).and_hms_micro(3, 4, 5, 60);
    assert_eq!(
        dt.format("%Y-%m-%d %H:%M:%S%.f %z %:z %Z").unwrap(),
        "2015-02-08 03:04:05.000060 +0530 +05:30 +05:30"
    );
    assert_eq!(dt.format("%a %b %h %e|%k|%-m|%_d|%0e").unwrap(), "Sun Feb Feb  8| 3|2| 8|08");
    assert_eq!(dt.format("%.3f %.6f %.9f %f").unwrap(), ".000 .000060 .000060000 000060000");
    assert_eq!(dt.format("%T %R %X %F").unwrap(), "03:04:05 03:04 03:04:05 2015-02-08");
    assert_eq!(dt.format("%t%n%%").unwrap(), "\t\n%");
    assert_eq!(dt.format("Jahr %Y, Tag %dé").unwrap(), "Jahr 2015, Tag 08é");
    assert_eq!(dt.format("%Q"), None);
    assert_eq!(dt.format("%Y %:x"), None);
}

#[test]
fn format_years_and_zones() {
    let far = UTC.ymd(12345, 1, 1).and_hms(0, 0, 0);
    assert_eq!(far.format("%Y|%-Y|%_Y").unwrap(), "+12345|+12345|+12345");
    let early = UTC.ymd(-7, 3, 4).and_hms(0, 0, 0);
    assert_eq!(early.format("%Y|%-Y|%_Y").unwrap(), "-0007|-7|   -7");
    assert_eq!(early.to_rfc3339(), "-0007-03-04T00:00:00+00:00");
    let small = UTC.ymd(42, 1, 1).and_hms(0, 0, 0);
    assert_eq!(small.format("%Y|%-Y|%_Y").unwrap(), "0042|42|  42");
    let utc = UTC.ymd(2001, 9, 9).and_hms(1, 46, 40);
    assert_eq!(utc.format("%Z %z").unwrap(), "UTC +0000");
    assert_eq!(utc.format_with_items(&[Item::Fixed(Fixed::TimezoneOffsetZ)]).unwrap(), "Z");
    let west = FixedOffset::west(30).ymd(2001, 9, 9).and_hms(1, 46, 40);
    assert_eq!(west.format("%z %:z").unwrap(), "+0000 +00:00");
    assert_eq!(west.format_with_items(&[Item::Fixed(Fixed::TimezoneOffsetColonZ)]).unwrap(), "Z");
    assert_eq!(west.to_display_string(), "2001-09-09 01:46:40 -00:00:30");
}

#[test]
fn leap_seconds_are_written_as_second_60() {
    let dt = UTC.ymd(2016, 12, 31).and_hms_nano(23, 59, 59, 1_500_000_000);
    assert_eq!(dt.to_rfc3339(), "2016-12-31T23:59:60.500+00:00");
    assert_eq!(dt.to_rfc2822(), "Sat, 31 Dec 2016 23:59:60 +0000");
    assert_eq!(dt.format("%S %f").unwrap(), "60 500000000");
    assert_eq!(dt.to_debug_string(), "2016-12-31T23:59:60.500Z");
}

#[test]
fn format_writes_calendar_and_clock_specifiers() {
    let dt = FixedOffset::east(5 * 3600 + 30 * 60).ymd(2015, 2, 8).and_hms_micro(3, 4, 5, 60);
    assert_eq!(
        dt.format("%y %C %j %I %l %p %P %u %w %A %B").unwrap(),
        "15 20 039 03  3 AM am 7 0 Sunday February"
    );
    assert_eq!(
        dt.format("%D|%x|%v|%r|%c").unwrap(),
        "02/08/15|02/08/15| 8-Feb-2015|03:04:05 AM|Sun Feb  8 03:04:05 2015"
    );
    let noon = UTC.ymd(2000, 5, 1).and_hms(12, 0, 0);
    assert_eq!(noon.format("%I %p %l%P %A %B").unwrap(), "12 PM 12pm Monday May");
    let midnight = UTC.ymd(2000, 9, 30).and_hms(0, 0, 0);
    assert_eq!(midnight.format("%I %p %A %B").unwrap(), "12 AM Saturday September");
    let early = UTC.ymd(-7, 3, 4).and_hms(0, 0, 0);
    assert_eq!(early.format("%C|%y|%-C|%_C").unwrap(), "-1|93|-1|-1");
    assert_eq!(dt.format("%Q"), None);
    assert_eq!(dt.format("%-c"), None);
}

#[test]
fn format_writes_week_numbers() {
    let dt = UTC.ymd(2015, 2, 8).and_hms(3, 4, 5);
    assert_eq!(dt.format("%U %W %G %g %V").unwrap(), "06 05 2015 15 06");
    let turn = UTC.ymd(2010, 1, 3).and_hms(0, 0, 0);
    assert_eq!(turn.format("%U %W %G %g %V %u").unwrap(), "01 00 2009 09 53 7");
    let before = UTC.ymd(2008, 12, 29).and_hms(0, 0, 0);
    assert_eq!(before.format("%G-W%V-%u").unwrap(), "2009-W01-1");
    let early = UTC.ymd(-1, 1, 1).and_hms(0, 0, 0);
    assert_eq!(early.format("%G %V").unwrap(), "-0002 53");
    assert_eq!(UTC.ymd(12345, 6, 7).and_hms(0, 0, 0).format("%G").unwrap(), "+12345");
}
