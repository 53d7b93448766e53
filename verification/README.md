# Date and time with time zones, verified

A date-time library in Verus: `DateTime<Tz>` holds an instant as a UTC
date-time together with the offset of its time zone (`UTC` or a
`FixedOffset`), and everything it does is stated in contracts and proved.

## Layout

- `src/calendar.rs`: the proleptic Gregorian calendar and day numbers.
- `src/duration.rs`: signed spans of time in nanoseconds.
- `src/naive.rs`: dates, times of day and date-times without a zone,
  including leap seconds.
- `src/offset.rs`: the `Offset` trait, `UTC` and `FixedOffset`.
- `src/datetime.rs`: `Date<Tz>` and `DateTime<Tz>`: construction, access
  to the local fields, arithmetic, changes of fields and of zone.
- `src/ordering.rs`: equality and order by instant.
- `src/text.rs`, `src/format.rs`: writing date-times (ISO 8601, RFC 3339,
  RFC 2822, and `strftime`-style formats).
- `src/items.rs`: formatting items and their description by format strings.
- `src/scan.rs`, `src/parse.rs`: reading date-times back from text.
- `src/roundtrip.rs`: proofs that the RFC 3339, RFC 2822 and `Debug`
  texts of a date-time read back as the same date-time.

Each text form is specified by a spec function over bytes; the executable
code is proved to produce exactly that text, and the parsers are proved to
compute exactly the result their spec functions describe.
