use lib::datetime::DateTime;
use lib::duration::Duration;
use lib::naive::NaiveTime;
use lib::offset::{FixedOffset, UTC};

#[test]
#[allow(non_snake_case)]
fn test_datetime_offset() {
    let EST = FixedOffset::east(5 * 60 * 60);
    let EDT = FixedOffset::east(4 * 60 * 60);

    assert_eq!(
        UTC.ymd(2014, 5, 6).and_hms(7, 8, 9).to_display_string(),
        "2014-05-06 07:08:09 UTC"
    );
    assert_eq!(
        EDT.ymd(2014, 5, 6).and_hms(7, 8, 9).to_display_string(),
        "2014-05-06 07:08:09 +04:00"
    );
    assert_eq!(
        UTC.ymd(2014, 5, 6).and_hms(7, 8, 9).to_debug_string(),
        "2014-05-06T07:08:09Z"
    );
    assert_eq!(
        EDT.ymd(2014, 5, 6).and_hms(7, 8, 9).to_debug_string(),
        "2014-05-06T07:08:09+04:00"
    );

    assert_eq!(UTC.ymd(2014, 5, 6).and_hms(7, 8, 9), EDT.ymd(2014, 5, 6).and_hms(11, 8, 9));
    assert_eq!(
        UTC.ymd(2014, 5, 6).and_hms(7, 8, 9) + Duration::seconds(3600 + 60 + 1),
        UTC.ymd(2014, 5, 6).and_hms(8, 9, 10)
    );
    assert_eq!(
        UTC.ymd(2014, 5, 6).and_hms(7, 8, 9) - EDT.ymd(2014, 5, 6).and_hms(10, 11, 12),
        Duration::seconds(3600 - 3 * 60 - 3)
    );

    assert_eq!(*UTC.ymd(2014, 5, 6).and_hms(7, 8, 9).offset(), UTC);
    assert_eq!(*EDT.ymd(2014, 5, 6).and_hms(7, 8, 9).offset(), EDT);
    assert!(*EDT.ymd(2014, 5, 6).and_hms(7, 8, 9).offset() != EST);
}

#[test]
fn test_datetime_time() {
    assert_eq!(
        FixedOffset::east(5 * 60 * 60).ymd(2014, 5, 6).and_hms(7, 8, 9).time(),
        NaiveTime::from_hms(7, 8, 9)
    );
}

#[test]
#[allow(non_snake_case)]
fn test_datetime_rfc2822_and_rfc3339() {
    let EDT = FixedOffset::east(5 * 60 * 60);
    assert_eq!(
        UTC.ymd(2015, 2, 18).and_hms(23, 16, 9).to_rfc2822(),
        "Wed, 18 Feb 2015 23:16:09 +0000"
    );
    assert_eq!(
        UTC.ymd(2015, 2, 18).and_hms(23, 16, 9).to_rfc3339(),
        "2015-02-18T23:16:09+00:00"
    );
    assert_eq!(
        EDT.ymd(2015, 2, 18).and_hms_milli(23, 16, 9, 150).to_rfc2822(),
        "Wed, 18 Feb 2015 23:16:09 +0500"
    );
    assert_eq!(
        EDT.ymd(2015, 2, 18).and_hms_milli(23, 16, 9, 150).to_rfc3339(),
        "2015-02-18T23:16:09.150+05:00"
    );
    assert_eq!(
        EDT.ymd(2015, 2, 18).and_hms_micro(23, 59, 59, 1_234_567).to_rfc2822(),
        "Wed, 18 Feb 2015 23:59:60 +0500"
    );
    assert_eq!(
        EDT.ymd(2015, 2, 18).and_hms_micro(23, 59, 59, 1_234_567).to_rfc3339(),
        "2015-02-18T23:59:60.234567+05:00"
    );

    assert_eq!(
        DateTime::parse_from_rfc2822("Wed, 18 Feb 2015 23:16:09 +0000"),
        Ok(FixedOffset::east(0).ymd(2015, 2, 18).and_hms(23, 16, 9))
    );
    assert_eq!(
        DateTime::parse_from_rfc3339("2015-02-18T23:16:09Z"),
        Ok(FixedOffset::east(0).ymd(2015, 2, 18).and_hms(23, 16, 9))
    );
    assert_eq!(
        DateTime::parse_from_rfc2822("Wed, 18 Feb 2015 23:59:60 +0500"),
        Ok(EDT.ymd(2015, 2, 18).and_hms_milli(23, 59, 59, 1_000))
    );
    assert_eq!(
        DateTime::parse_from_rfc3339("2015-02-18T23:59:60.234567+05:00"),
        Ok(EDT.ymd(2015, 2, 18).and_hms_micro(23, 59, 59, 1_234_567))
    );
}

#[test]
fn test_datetime_from_str() {
    assert_eq!(
        "2015-2-18T23:16:9.15Z".parse::<DateTime<FixedOffset>>(),
        Ok(FixedOffset::east(0).ymd(2015, 2, 18).and_hms_milli(23, 16, 9, 150))
    );
    assert_eq!(
        "2015-2-18T13:16:9.15-10:00".parse::<DateTime<FixedOffset>>(),
        Ok(FixedOffset::west(10 * 3600).ymd(2015, 2, 18).and_hms_milli(13, 16, 9, 150))
    );
    assert!("2015-2-18T23:16:9.15".parse::<DateTime<FixedOffset>>().is_err());

    assert_eq!(
        "2015-2-18T23:16:9.15Z".parse::<DateTime<UTC>>(),
        Ok(UTC.ymd(2015, 2, 18).and_hms_milli(23, 16, 9, 150))
    );
    assert_eq!(
        "2015-2-18T13:16:9.15-10:00".parse::<DateTime<UTC>>(),
        Ok(UTC.ymd(2015, 2, 18).and_hms_milli(23, 16, 9, 150))
    );
    assert!("2015-2-18T23:16:9.15".parse::<DateTime<UTC>>().is_err());
}

#[test]
fn test_datetime_parse_from_str() {
    let ymdhms = |y, m, d, h, n, s, off| FixedOffset::east(off).ymd(y, m, d).and_hms(h, n, s);
    assert_eq!(
        DateTime::parse_from_str("2014-5-7T12:34:56+09:30", "%Y-%m-%dT%H:%M:%S%z"),
        Ok(ymdhms(2014, 5, 7, 12, 34, 56, 570 * 60))
    ); // ignore offset
    assert!(DateTime::parse_from_str("20140507000000", "%Y%m%d%H%M%S").is_err()); // no offset
    assert!(DateTime::parse_from_str(
        "Fri, 09 Aug 2013 23:54:35 GMT",
        "%a, %d %b %Y %H:%M:%S GMT"
    )
    .is_err());
    assert_eq!(
        UTC.datetime_from_str("Fri, 09 Aug 2013 23:54:35 GMT", "%a, %d %b %Y %H:%M:%S GMT"),
        Ok(UTC.ymd(2013, 8, 9).and_hms(23, 54, 35))
    );
}
