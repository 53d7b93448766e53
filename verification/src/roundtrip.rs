//! Reading back what was written: the textual forms of date-times read
//! back as the date-times they were written from.
use vstd::prelude::*;
use vstd::utf8::encode_utf8;
use crate::calendar::{MAX_YEAR, weekday_index};
use crate::datetime::{DateTime, utc_of};
use crate::format::{
    fraction_text, rfc3339_text, rfc2822_text, two_digits, shown_second, day_text, day_digits,
    padded_year, short_weekday_name, short_month_name, num_digits, wider, lemma_offset_ascii,
    naive_text,
};
use crate::naive::{
    datetime_valid, secs_in_range, date_of, time_of, leap_free, lemma_date_of_valid,
    weekday_from_index,
};
use crate::offset::{Offset, FixedOffset, UTC, offset_hhmm, fixed_offset_text, abs, offset_in_range};
use crate::parse::{
    Parsed, Numeric, st_fraction, st_digits, st_char, st_t, st_offset, st_offset_range,
    st_rfc3339, st_end, st_start, empty_parsed, rfc3339_spec, resolve_local, st_space,
    st_rfc2822_weekday, st_space_req, st_month_name, st_year_2822, st_opt_seconds, st_zone_2822,
    st_rfc2822, rfc2822_spec, year_2822, st_numeric, numeric_width, set_numeric, iso_str_fields,
    iso_str_spec,
};
use crate::scan::{
    ParseError, Colon, is_digit, digit_run_end, all_digits_end, digits_value, scan_number,
    nano_scale, scan_offset, is_space, skip_spaces, fold_case, name_at, weekday_named,
    month_named, scan_short_weekday, scan_short_month, alpha_end, skip_colons_spaces,
};
use crate::text::{
    fixed_width, pow10, lemma_fixed_width, digit, is_ascii_bytes, ascii_chars, lemma_ascii_utf8,
};

verus! {

/// Digits equal one by one have the same value.
pub proof fn lemma_digits_value_eq(s: Seq<u8>, i: int, t: Seq<u8>, k: int, n: int)
    requires
        0 <= n,
        forall|m: int| i <= m < i + n ==> #[trigger] s[m] == t[k + (m - i)],
    ensures
        digits_value(s, i, i + n) == digits_value(t, k, k + n),
    decreases n,
{
    if n > 0 {
        lemma_digits_value_eq(s, i, t, k, n - 1);
        assert(s[i + n - 1] == t[k + (i + n - 1 - i)]);
    }
}

/// Digits written by `fixed_width` read back as the number, modulo the
/// width's power of ten.
pub proof fn lemma_fixed_width_value(n: nat, w: nat)
    ensures
        digits_value(fixed_width(n, w), 0, w as int) == n % pow10(w),
    decreases w,
{
    if w > 0 {
        let f = fixed_width(n, w);
        let g = fixed_width(n / 10, (w - 1) as nat);
        lemma_fixed_width(n / 10, (w - 1) as nat);
        lemma_fixed_width_value(n / 10, (w - 1) as nat);
        assert forall|m: int| 0 <= m < 0 + w - 1 implies #[trigger] f[m] == g[0 + (m - 0)] by {
            assert(f[m] == g[m]);
        }
        lemma_digits_value_eq(f, 0, g, 0, w - 1);
        let p = pow10((w - 1) as nat);
        let q = n / 10;
        let r = n % 10;
        let b = q % p;
        let a = q / p;
        assert(p > 0) by {
            lemma_pow10_positive((w - 1) as nat);
        }
        vstd::arithmetic::div_mod::lemma_fundamental_div_mod(n as int, 10);
        vstd::arithmetic::div_mod::lemma_fundamental_div_mod(q as int, p as int);
        vstd::arithmetic::div_mod::lemma_mod_bound(q as int, p as int);
        assert(n == a * (10 * p) + (10 * b + r) && 0 <= 10 * b + r < 10 * p) by (nonlinear_arith)
            requires
                n == 10 * q + r,
                q == p * a + b,
                0 <= b < p,
                0 <= r < 10,
        {
        }
        vstd::arithmetic::div_mod::lemma_fundamental_div_mod_converse(
            n as int,
            (10 * p) as int,
            a as int,
            (10 * b + r) as int,
        );
        assert(pow10(w) == 10 * p);
    }
}

/// Powers of ten are positive.
pub proof fn lemma_pow10_positive(w: nat)
    ensures
        pow10(w) > 0,
    decreases w,
{
    if w > 0 {
        lemma_pow10_positive((w - 1) as nat);
    }
}

/// A run of `k` digits, no longer than `max`, that stops at the end of the
/// text, at a byte that is not a digit, or at `max` digits, is the run read.
pub proof fn lemma_digit_run_stops(s: Seq<u8>, i: int, k: int, max: int)
    requires
        0 <= i,
        0 <= k <= max,
        i + k <= s.len(),
        forall|m: int| i <= m < i + k ==> is_digit(#[trigger] s[m]),
        k == max || i + k == s.len() || !is_digit(s[i + k]),
    ensures
        digit_run_end(s, i, max) == i + k,
    decreases k,
{
    if k > 0 {
        lemma_digit_run_stops(s, i + 1, k - 1, max - 1);
    }
}

/// The digits of `fixed_width(n, w)` at `i`, with nothing more read, give
/// back `n`.
pub proof fn lemma_scan_fixed(s: Seq<u8>, i: int, n: nat, w: nat, min: int, max: int)
    requires
        0 <= i,
        i + w <= s.len(),
        1 <= min <= w <= max,
        n < pow10(w),
        n <= i64::MAX,
        s.subrange(i, i + w) == fixed_width(n, w),
        w == max || i + w == s.len() || !is_digit(s[i + w]),
    ensures
        scan_number(s, i, min, max) == Ok::<(int, int), ParseError>((i + w, n as int)),
{
    let f = fixed_width(n, w);
    lemma_fixed_width(n, w);
    assert forall|m: int| i <= m < i + w implies is_digit(#[trigger] s[m]) by {
        assert(s[m] == f[m - i]);
    }
    lemma_digit_run_stops(s, i, w as int, max);
    assert forall|m: int| i <= m < i + w implies #[trigger] s[m] == f[0 + (m - i)] by {
        assert(s.subrange(i, i + w)[m - i] == s[m]);
    }
    lemma_digits_value_eq(s, i, f, 0, w as int);
    lemma_fixed_width_value(n, w);
    vstd::arithmetic::div_mod::lemma_small_mod(n, pow10(w));
}

/// Two digits written by `fixed_width` are the tens and the units.
pub proof fn lemma_two_digits(x: nat)
    requires
        x < 100,
    ensures
        fixed_width(x, 2) == seq![digit((x / 10) as int), digit((x % 10) as int)],
{
    assert(fixed_width(x, 2) =~= seq![digit((x / 10) as int), digit((x % 10) as int)]) by {
        assert(fixed_width(x / 100, 0) =~= Seq::<u8>::empty());
        assert((x / 10) / 10 == x / 100);
        assert(fixed_width(x / 10, 1) =~= seq![digit(((x / 10) % 10) as int)]);
        assert((x / 10) % 10 == x / 10);
    }
}

/// An offset of whole minutes written by `offset_hhmm` reads back as the
/// offset: with the colon read exactly, or absent when it was left out.
pub proof fn lemma_scan_offset_hhmm(s: Seq<u8>, i: int, fix: int, colon: bool)
    requires
        0 <= i,
        offset_in_range(fix),
        fix % 60 == 0,
        i + offset_hhmm(fix, colon).len() <= s.len(),
        s.subrange(i, i + offset_hhmm(fix, colon).len()) == offset_hhmm(fix, colon),
    ensures
        offset_hhmm(fix, colon).len() == (if colon {
            6int
        } else {
            5int
        }),
        scan_offset(
            s,
            i,
            if colon {
                Colon::Exact
            } else {
                Colon::Absent
            },
        ) == Ok::<(int, int), ParseError>((i + offset_hhmm(fix, colon).len(), fix)),
{
    let a = abs(fix);
    let hh = a / 3600;
    let mm = a / 60 % 60;
    assert(0 <= hh < 24 && 0 <= mm < 60);
    lemma_two_digits(hh as nat);
    lemma_two_digits(mm as nat);
    let o = offset_hhmm(fix, colon);
    let c: int = if colon {
        1
    } else {
        0
    };
    assert(o.len() == 5 + c);
    assert(s[i] == o[0]);
    assert(s[i + 1] == o[1]);
    assert(s[i + 2] == o[2]);
    assert(s[i + 3 + c] == o[3 + c]);
    assert(s[i + 4 + c] == o[4 + c]);
    if colon {
        assert(s[i + 3] == o[3]);
    }
    assert(a % 60 == 0);
    assert(hh * 3600 + mm * 60 == a) by (nonlinear_arith)
        requires
            0 <= a < 86400,
            a % 60 == 0,
            hh == a / 3600,
            mm == a / 60 % 60,
    {
        let q = a / 60;
        assert(a == 60 * q);
        assert(hh == q / 60);
        assert(q == 60 * (q / 60) + q % 60);
    }
    assert(fix < 0 ==> fix <= -60);
}

/// The fraction written by `fraction_text` reads back as the nanoseconds,
/// when what follows it is not a digit or a dot.
pub proof fn lemma_scan_fraction(s: Seq<u8>, i: int, nano: int, p: Parsed)
    requires
        0 <= nano < 1_000_000_000,
        0 <= i,
        i + fraction_text(nano).len() <= s.len(),
        s.subrange(i, i + fraction_text(nano).len()) == fraction_text(nano),
        i + fraction_text(nano).len() == s.len() || (!is_digit(s[i + fraction_text(nano).len()])
            && s[i + fraction_text(nano).len()] != 46),
        p.nanosecond is None,
    ensures
        st_fraction(Ok((i, p)), s) == (if nano == 0 {
            Ok::<(int, Parsed), ParseError>((i, p))
        } else {
            Ok::<(int, Parsed), ParseError>(
                (
                    i + fraction_text(nano).len(),
                    Parsed { nanosecond: Some(nano as u32), ..p },
                ),
            )
        }),
{
    let f = fraction_text(nano);
    if nano == 0 {
    } else {
        let (k, v, scale): (nat, nat, int) = if nano % 1_000_000 == 0 {
            (3, (nano / 1_000_000) as nat, 1_000_000)
        } else if nano % 1_000 == 0 {
            (6, (nano / 1_000) as nat, 1_000)
        } else {
            (9, nano as nat, 1)
        };
        assert(f == seq![46u8] + fixed_width(v, k));
        lemma_fixed_width(v, k);
        assert(s.subrange(i, i + f.len())[0] == s[i]);
        assert(f[0] == 46);
        assert(s.subrange(i + 1, i + 1 + k) =~= fixed_width(v, k)) by {
            assert forall|m: int| 0 <= m < k implies #[trigger] s.subrange(i + 1, i + 1 + k)[m]
                == fixed_width(v, k)[m] by {
                assert(s.subrange(i + 1, i + 1 + k)[m] == s[i + 1 + m]);
                assert(s[i + 1 + m] == f[1 + m]);
            }
        }
        assert(pow10(3) == 1000 && pow10(6) == 1_000_000 && pow10(9) == 1_000_000_000) by {
            reveal_with_fuel(pow10, 10);
        }
        lemma_scan_fixed(s, i + 1, v, k, 1, 9);
        assert(all_digits_end(s, i + 1 + k) == i + 1 + k);
        assert(nano_scale(k as int) == scale);
        assert(v * scale == nano) by (nonlinear_arith)
            requires
                (k == 3 && v == nano / 1_000_000 && scale == 1_000_000 && nano % 1_000_000 == 0)
                    || (k == 6 && v == nano / 1_000 && scale == 1_000 && nano % 1_000 == 0)
                    || (k == 9 && v == nano && scale == 1),
        {
        }
    }
}

/// A second of the day splits into hours, minutes and seconds.
pub proof fn lemma_hms_split(x: int)
    requires
        0 <= x < 86400,
    ensures
        x == (x / 3600) * 3600 + (x / 60 % 60) * 60 + x % 60,
        0 <= x / 3600 < 24,
        0 <= x / 60 % 60 < 60,
{
    let q = x / 60;
    vstd::arithmetic::div_mod::lemma_fundamental_div_mod(x, 60);
    vstd::arithmetic::div_mod::lemma_fundamental_div_mod(q, 60);
    vstd::arithmetic::div_mod::lemma_div_denominator(x, 60, 60);
}

/// The fields read from RFC 3339 text resolve to the local date-time they
/// were written from.
proof fn lemma_resolve_written(v: (int, int), p: Parsed)
    requires
        datetime_valid(v),
        v.1 >= 1_000_000_000 ==> v.0 % 60 == 59,
        p.year == Some(date_of(v).0 as i32),
        p.month == Some(date_of(v).1 as u32),
        p.day == Some(date_of(v).2 as u32),
        p.year_div_100 is None,
        p.year_mod_100 is None,
        p.ordinal is None,
        p.week_from_sun is None,
        p.week_from_mon is None,
        p.isoyear is None,
        p.isoyear_div_100 is None,
        p.isoyear_mod_100 is None,
        p.isoweek is None,
        p.hour_div_12 == Some((time_of(v).0 / 3600 / 12) as u32),
        p.hour_mod_12 == Some((time_of(v).0 / 3600 % 12) as u32),
        p.minute == Some((time_of(v).0 / 60 % 60) as u32),
        p.second == Some(shown_second(time_of(v)) as u32),
        p.nanosecond == (if leap_free(v.1) == 0 {
            None::<u32>
        } else {
            Some(leap_free(v.1) as u32)
        }),
        p.weekday is None || p.weekday == Some(weekday_from_index(weekday_index(v.0 / 86400))),
    ensures
        resolve_local(p) == Ok::<(int, int), ParseError>(v),
{
    lemma_date_of_valid(v);
    let x = time_of(v).0;
    lemma_hms_split(x);
    vstd::arithmetic::div_mod::lemma_mod_mod(v.0, 60, 1440);
    assert(x % 60 == v.0 % 60);
}

/// Where the pieces of the RFC 3339 text of `v` at `fix` stand.
proof fn lemma_rfc3339_layout(v: (int, int), fix: int)
    requires
        datetime_valid(v),
        0 <= date_of(v).0 <= 9999,
        offset_in_range(fix),
    ensures
        ({
            let t = rfc3339_text(v, fix);
            let d = date_of(v);
            let tt = time_of(v);
            let fr = fraction_text(leap_free(v.1));
            let lf = fr.len() as int;
            &&& t.len() == 25 + lf
            &&& t.subrange(0, 4) == fixed_width(d.0 as nat, 4)
            &&& t.subrange(5, 7) == two_digits(d.1)
            &&& t.subrange(8, 10) == two_digits(d.2)
            &&& t.subrange(11, 13) == two_digits(tt.0 / 3600)
            &&& t.subrange(14, 16) == two_digits(tt.0 / 60 % 60)
            &&& t.subrange(17, 19) == two_digits(shown_second(tt))
            &&& t.subrange(19, 19 + lf) == fr
            &&& t.subrange(19 + lf, 25 + lf) == offset_hhmm(fix, true)
            &&& t[4] == 45 && t[7] == 45 && t[10] == 84 && t[13] == 58 && t[16] == 58
            &&& (t[19 + lf] == 43 || t[19 + lf] == 45)
            &&& is_ascii_bytes(t)
        }),
{
    lemma_date_of_valid(v);
    let d = date_of(v);
    let tt = time_of(v);
    lemma_hms_split(tt.0);
    let h = tt.0 / 3600;
    let mi = tt.0 / 60 % 60;
    let sec = shown_second(tt);
    let nano = leap_free(v.1);
    let y4 = fixed_width(d.0 as nat, 4);
    let m2 = two_digits(d.1);
    let d2 = two_digits(d.2);
    let h2 = two_digits(h);
    let n2 = two_digits(mi);
    let s2 = two_digits(sec);
    let fr = fraction_text(nano);
    let off = offset_hhmm(fix, true);
    lemma_fixed_width(d.0 as nat, 4);
    lemma_fixed_width(d.1 as nat, 2);
    lemma_fixed_width(d.2 as nat, 2);
    lemma_fixed_width(h as nat, 2);
    lemma_fixed_width(mi as nat, 2);
    lemma_fixed_width(sec as nat, 2);
    lemma_fixed_width((nano / 1_000_000) as nat, 3);
    lemma_fixed_width((nano / 1_000) as nat, 6);
    lemma_fixed_width(nano as nat, 9);
    lemma_fixed_width((abs(fix) / 3600) as nat, 2);
    lemma_fixed_width((abs(fix) / 60 % 60) as nat, 2);
    let t = rfc3339_text(v, fix);
    let lf = fr.len() as int;
    assert(lf == 0 || lf == 4 || lf == 7 || lf == 10);
    assert(off.len() == 6);
    assert(t =~= y4 + seq![45u8] + m2 + seq![45u8] + d2 + seq![84u8] + h2 + seq![58u8] + n2
        + seq![58u8] + s2 + fr + off);
    assert(t.subrange(0, 4) =~= y4);
    assert(t.subrange(5, 7) =~= m2);
    assert(t.subrange(8, 10) =~= d2);
    assert(t.subrange(11, 13) =~= h2);
    assert(t.subrange(14, 16) =~= n2);
    assert(t.subrange(17, 19) =~= s2);
    assert(t.subrange(19, 19 + lf) =~= fr);
    assert(t.subrange(19 + lf, 25 + lf) =~= off);
    assert(t[19 + lf] == off[0]);
    lemma_offset_ascii(fix, true);
    assert(is_ascii_bytes(fr));
    assert forall|i: int| 0 <= i < t.len() implies #[trigger] t[i] < 128 by {
        if i < 19 {
        } else if i < 19 + lf {
            assert(t[i] == fr[i - 19]);
        } else {
            assert(t[i] == off[i - 19 - lf]);
        }
    }
}

/// The fields read from RFC 3339 text of the local date-time `v` at offset
/// `fix`.
pub open spec fn rfc3339_fields(v: (int, int), fix: int) -> Parsed {
    Parsed {
        year: Some(date_of(v).0 as i32),
        month: Some(date_of(v).1 as u32),
        day: Some(date_of(v).2 as u32),
        year_div_100: None,
        year_mod_100: None,
        ordinal: None,
        week_from_sun: None,
        week_from_mon: None,
        isoyear: None,
        isoyear_div_100: None,
        isoyear_mod_100: None,
        isoweek: None,
        hour_div_12: Some((time_of(v).0 / 3600 / 12) as u32),
        hour_mod_12: Some((time_of(v).0 / 3600 % 12) as u32),
        minute: Some((time_of(v).0 / 60 % 60) as u32),
        second: Some(shown_second(time_of(v)) as u32),
        nanosecond: if leap_free(v.1) == 0 {
            None
        } else {
            Some(leap_free(v.1) as u32)
        },
        offset: Some(fix as i32),
        weekday: None,
    }
}

/// Reading RFC 3339 text laid out as `lemma_rfc3339_layout` says gives the
/// fields written.
proof fn lemma_rfc3339_fields(t: Seq<u8>, v: (int, int), fix: int, lf: int)
    requires
        datetime_valid(v),
        0 <= date_of(v).0 <= 9999,
        offset_in_range(fix),
        fix % 60 == 0,
        lf == fraction_text(leap_free(v.1)).len(),
        t.len() == 25 + lf,
        t.subrange(0, 4) == fixed_width(date_of(v).0 as nat, 4),
        t.subrange(5, 7) == two_digits(date_of(v).1),
        t.subrange(8, 10) == two_digits(date_of(v).2),
        t.subrange(11, 13) == two_digits(time_of(v).0 / 3600),
        t.subrange(14, 16) == two_digits(time_of(v).0 / 60 % 60),
        t.subrange(17, 19) == two_digits(shown_second(time_of(v))),
        t.subrange(19, 19 + lf) == fraction_text(leap_free(v.1)),
        t.subrange(19 + lf, 25 + lf) == offset_hhmm(fix, true),
        t[4] == 45 && t[7] == 45 && t[10] == 84 && t[13] == 58 && t[16] == 58,
        t[19 + lf] == 43 || t[19 + lf] == 45,
    ensures
        st_end(st_rfc3339(st_start(), t), t) == Ok::<Parsed, ParseError>(rfc3339_fields(v, fix)),
{
    lemma_date_of_valid(v);
    let d = date_of(v);
    let tt = time_of(v);
    lemma_hms_split(tt.0);
    let h = tt.0 / 3600;
    let mi = tt.0 / 60 % 60;
    let sec = shown_second(tt);
    let nano = leap_free(v.1);
    assert(pow10(2) == 100 && pow10(4) == 10000) by {
        reveal_with_fuel(pow10, 5);
    }
    let p0 = empty_parsed();
    let p1 = Parsed { year: Some(d.0 as i32), ..p0 };
    let p2 = Parsed { month: Some(d.1 as u32), ..p1 };
    let p3 = Parsed { day: Some(d.2 as u32), ..p2 };
    let p4 = Parsed { hour_div_12: Some((h / 12) as u32), hour_mod_12: Some((h % 12) as u32), ..p3 };
    let p5 = Parsed { minute: Some(mi as u32), ..p4 };
    let p6 = Parsed { second: Some(sec as u32), ..p5 };
    let p7 = if nano == 0 {
        p6
    } else {
        Parsed { nanosecond: Some(nano as u32), ..p6 }
    };
    let p8 = Parsed { offset: Some(fix as i32), ..p7 };
    lemma_scan_fixed(t, 0, d.0 as nat, 4, 4, 4);
    let a = st_digits(st_start(), t, 4, 4, Numeric::Year);
    assert(a == Ok::<(int, Parsed), ParseError>((4, p1)));
    let a = st_char(a, t, 45u8);
    lemma_scan_fixed(t, 5, d.1 as nat, 2, 2, 2);
    let a = st_digits(a, t, 2, 2, Numeric::Month);
    assert(a == Ok::<(int, Parsed), ParseError>((7, p2)));
    let a = st_char(a, t, 45u8);
    lemma_scan_fixed(t, 8, d.2 as nat, 2, 2, 2);
    let a = st_digits(a, t, 2, 2, Numeric::Day);
    assert(a == Ok::<(int, Parsed), ParseError>((10, p3)));
    let a = st_t(a, t);
    lemma_scan_fixed(t, 11, h as nat, 2, 2, 2);
    let a = st_digits(a, t, 2, 2, Numeric::Hour);
    assert(a == Ok::<(int, Parsed), ParseError>((13, p4)));
    let a = st_char(a, t, 58u8);
    lemma_scan_fixed(t, 14, mi as nat, 2, 2, 2);
    let a = st_digits(a, t, 2, 2, Numeric::Minute);
    assert(a == Ok::<(int, Parsed), ParseError>((16, p5)));
    let a = st_char(a, t, 58u8);
    lemma_scan_fixed(t, 17, sec as nat, 2, 2, 2);
    let a = st_digits(a, t, 2, 2, Numeric::Second);
    assert(a == Ok::<(int, Parsed), ParseError>((19, p6)));
    lemma_scan_fraction(t, 19, nano, p6);
    let a = st_fraction(a, t);
    assert(a == Ok::<(int, Parsed), ParseError>((19 + lf, p7)));
    lemma_scan_offset_hhmm(t, 19 + lf, fix, true);
    let a = st_offset(a, t, true, Colon::Exact, false);
    assert(a == Ok::<(int, Parsed), ParseError>((25 + lf, p8)));
    let a = st_offset_range(a);
    assert(st_rfc3339(st_start(), t) == a);
}

/// The RFC 3339 text of a local date-time `v` at offset `fix` reads back as
/// the same instant at the same offset, for years from 0 to 9999, offsets
/// of whole minutes, and leap seconds only in the last second of a minute.
pub proof fn lemma_rfc3339_reads_back(v: (int, int), fix: int)
    requires
        datetime_valid(v),
        0 <= date_of(v).0 <= 9999,
        offset_in_range(fix),
        fix % 60 == 0,
        secs_in_range(v.0 - fix),
        v.1 >= 1_000_000_000 ==> v.0 % 60 == 59,
    ensures
        rfc3339_spec(rfc3339_text(v, fix)) == Ok::<((int, int), int), ParseError>(
            (utc_of(v, fix), fix),
        ),
{
    let t = rfc3339_text(v, fix);
    let lf = fraction_text(leap_free(v.1)).len() as int;
    lemma_rfc3339_layout(v, fix);
    lemma_rfc3339_fields(t, v, fix, lf);
    let p = st_end(st_rfc3339(st_start(), t), t)->Ok_0;
    lemma_resolve_written(v, p);
}

/// Reading back the RFC 3339 text of a date-time gives the same instant at
/// its offset, for years from 0 to 9999, offsets of whole minutes, and leap
/// seconds only in the last second of a minute.
pub proof fn lemma_rfc3339_roundtrip<Tz: Offset>(dt: DateTime<Tz>)
    requires
        dt.inv(),
        dt.local_held(),
        0 <= date_of(dt.local()).0 <= 9999,
        dt.fix() % 60 == 0,
        dt.local().1 >= 1_000_000_000 ==> dt.local().0 % 60 == 59,
    ensures
        rfc3339_spec(encode_utf8(ascii_chars(rfc3339_text(dt.local(), dt.fix())))) == Ok::<
            ((int, int), int),
            ParseError,
        >((dt@.0, dt.fix())),
{
    let v = dt.local();
    let fix = dt.fix();
    assert(datetime_valid(v) && offset_in_range(fix) && datetime_valid(dt@.0)) by {
        dt.lemma_inv();
    }
    assert(utc_of(v, fix) == dt@.0);
    lemma_rfc3339_text_reads_back(v, fix);
}

/// The RFC 3339 text of a local date-time `v` at offset `fix`, as the
/// characters of a string, reads back as the instant written at `fix`.
proof fn lemma_rfc3339_text_reads_back(v: (int, int), fix: int)
    requires
        datetime_valid(v),
        0 <= date_of(v).0 <= 9999,
        offset_in_range(fix),
        fix % 60 == 0,
        secs_in_range(v.0 - fix),
        v.1 >= 1_000_000_000 ==> v.0 % 60 == 59,
    ensures
        rfc3339_spec(encode_utf8(ascii_chars(rfc3339_text(v, fix)))) == Ok::<
            ((int, int), int),
            ParseError,
        >((utc_of(v, fix), fix)),
{
    let t = rfc3339_text(v, fix);
    assert(is_ascii_bytes(t)) by {
        lemma_rfc3339_layout(v, fix);
    }
    assert(encode_utf8(ascii_chars(t)) == t) by {
        lemma_ascii_utf8(t);
    }
    assert(rfc3339_spec(t) == Ok::<((int, int), int), ParseError>((utc_of(v, fix), fix))) by {
        lemma_rfc3339_reads_back(v, fix);
    }
}

/// A number written in exactly the width of its field reads back as that
/// number, after no white space.
proof fn lemma_numeric_reads(t: Seq<u8>, i: int, p: Parsed, k: Numeric, n: nat)
    requires
        0 <= i,
        i + numeric_width(k) <= t.len(),
        1 <= numeric_width(k),
        n < pow10(numeric_width(k) as nat),
        n <= i64::MAX,
        t.subrange(i, i + numeric_width(k)) == fixed_width(n, numeric_width(k) as nat),
    ensures
        st_numeric(Ok((i, p)), t, k) == match set_numeric(p, k, n as int) {
            Ok(q) => Ok::<(int, Parsed), ParseError>((i + numeric_width(k), q)),
            Err(e) => Err(e),
        },
{
    let w = numeric_width(k) as nat;
    lemma_fixed_width(n, w);
    assert(t[i] == fixed_width(n, w)[0]) by {
        assert(t.subrange(i, i + w)[0] == t[i]);
    }
    assert(skip_spaces(t, i) == i);
    lemma_scan_fixed(t, i, n, w, 1, w as int);
}

/// An offset `+HH:MM` of whole minutes reads back when the separator may
/// be any run of colons and white space.
proof fn lemma_scan_offset_loose(s: Seq<u8>, i: int, fix: int)
    requires
        0 <= i,
        offset_in_range(fix),
        fix % 60 == 0,
        i + 6 <= s.len(),
        s.subrange(i, i + 6) == offset_hhmm(fix, true),
    ensures
        scan_offset(s, i, Colon::Loose) == Ok::<(int, int), ParseError>((i + 6, fix)),
{
    lemma_scan_offset_hhmm(s, i, fix, true);
    let o = offset_hhmm(fix, true);
    lemma_fixed_width((abs(fix) / 60 % 60) as nat, 2);
    assert(s[i + 3] == o[3] && s[i + 4] == o[4]) by {
        assert(s.subrange(i, i + 6)[3] == s[i + 3]);
        assert(s.subrange(i, i + 6)[4] == s[i + 4]);
    }
    assert(is_digit(s[i + 4]));
    assert(skip_colons_spaces(s, i + 4) == i + 4);
    assert(skip_colons_spaces(s, i + 3) == i + 4);
}

/// Reading ISO 8601 text laid out as `lemma_rfc3339_layout` says, or with
/// `Z` in place of the offset when `zulu`, gives the fields written.
#[verifier::rlimit(100)]
proof fn lemma_iso_fields(t: Seq<u8>, v: (int, int), fix: int, lf: int, zulu: bool)
    requires
        datetime_valid(v),
        0 <= date_of(v).0 <= 9999,
        offset_in_range(fix),
        fix % 60 == 0,
        lf == fraction_text(leap_free(v.1)).len(),
        t.subrange(0, 4) == fixed_width(date_of(v).0 as nat, 4),
        t.subrange(5, 7) == two_digits(date_of(v).1),
        t.subrange(8, 10) == two_digits(date_of(v).2),
        t.subrange(11, 13) == two_digits(time_of(v).0 / 3600),
        t.subrange(14, 16) == two_digits(time_of(v).0 / 60 % 60),
        t.subrange(17, 19) == two_digits(shown_second(time_of(v))),
        t.subrange(19, 19 + lf) == fraction_text(leap_free(v.1)),
        t[4] == 45 && t[7] == 45 && t[10] == 84 && t[13] == 58 && t[16] == 58,
        zulu ==> fix == 0 && t.len() == 20 + lf && t[19 + lf] == 90,
        !zulu ==> t.len() == 25 + lf && t.subrange(19 + lf, 25 + lf) == offset_hhmm(fix, true)
            && (t[19 + lf] == 43 || t[19 + lf] == 45),
    ensures
        iso_str_fields(t) == Ok::<Parsed, ParseError>(rfc3339_fields(v, fix)),
{
    lemma_date_of_valid(v);
    let d = date_of(v);
    let tt = time_of(v);
    lemma_hms_split(tt.0);
    let h = tt.0 / 3600;
    let mi = tt.0 / 60 % 60;
    let sec = shown_second(tt);
    let nano = leap_free(v.1);
    assert(pow10(2) == 100 && pow10(4) == 10000) by {
        reveal_with_fuel(pow10, 5);
    }
    let p0 = empty_parsed();
    let p1 = Parsed { year: Some(d.0 as i32), ..p0 };
    let p2 = Parsed { month: Some(d.1 as u32), ..p1 };
    let p3 = Parsed { day: Some(d.2 as u32), ..p2 };
    let p4 = Parsed { hour_div_12: Some((h / 12) as u32), hour_mod_12: Some((h % 12) as u32), ..p3 };
    let p5 = Parsed { minute: Some(mi as u32), ..p4 };
    let p6 = Parsed { second: Some(sec as u32), ..p5 };
    let p7 = if nano == 0 {
        p6
    } else {
        Parsed { nanosecond: Some(nano as u32), ..p6 }
    };
    let p8 = Parsed { offset: Some(fix as i32), ..p7 };
    let end = t.len() as int;
    let a0 = st_space(st_start(), t);
    assert(a0 == Ok::<(int, Parsed), ParseError>((0, p0))) by {
        lemma_fixed_width(d.0 as nat, 4);
        assert(t.subrange(0, 4)[0] == t[0]);
    }
    let a1 = st_numeric(a0, t, Numeric::Year);
    assert(a1 == Ok::<(int, Parsed), ParseError>((4, p1))) by {
        lemma_numeric_reads(t, 0, p0, Numeric::Year, d.0 as nat);
    }
    let a2 = st_space(st_char(st_space(a1, t), t, 45u8), t);
    assert(a2 == Ok::<(int, Parsed), ParseError>((5, p1))) by {
        lemma_fixed_width(d.1 as nat, 2);
        assert(t.subrange(5, 7)[0] == t[5]);
    }
    let a3 = st_numeric(a2, t, Numeric::Month);
    assert(a3 == Ok::<(int, Parsed), ParseError>((7, p2))) by {
        lemma_numeric_reads(t, 5, p1, Numeric::Month, d.1 as nat);
    }
    let a4 = st_space(st_char(st_space(a3, t), t, 45u8), t);
    assert(a4 == Ok::<(int, Parsed), ParseError>((8, p2))) by {
        lemma_fixed_width(d.2 as nat, 2);
        assert(t.subrange(8, 10)[0] == t[8]);
    }
    let a5 = st_numeric(a4, t, Numeric::Day);
    assert(a5 == Ok::<(int, Parsed), ParseError>((10, p3))) by {
        lemma_numeric_reads(t, 8, p2, Numeric::Day, d.2 as nat);
    }
    let a6 = st_space(st_char(st_space(a5, t), t, 84u8), t);
    assert(a6 == Ok::<(int, Parsed), ParseError>((11, p3))) by {
        lemma_fixed_width(h as nat, 2);
        assert(t.subrange(11, 13)[0] == t[11]);
    }
    let a7 = st_numeric(a6, t, Numeric::Hour);
    assert(a7 == Ok::<(int, Parsed), ParseError>((13, p4))) by {
        lemma_numeric_reads(t, 11, p3, Numeric::Hour, h as nat);
    }
    let a8 = st_space(st_char(st_space(a7, t), t, 58u8), t);
    assert(a8 == Ok::<(int, Parsed), ParseError>((14, p4))) by {
        lemma_fixed_width(mi as nat, 2);
        assert(t.subrange(14, 16)[0] == t[14]);
    }
    let a9 = st_numeric(a8, t, Numeric::Minute);
    assert(a9 == Ok::<(int, Parsed), ParseError>((16, p5))) by {
        lemma_numeric_reads(t, 14, p4, Numeric::Minute, mi as nat);
    }
    let a10 = st_space(st_char(st_space(a9, t), t, 58u8), t);
    assert(a10 == Ok::<(int, Parsed), ParseError>((17, p5))) by {
        lemma_fixed_width(sec as nat, 2);
        assert(t.subrange(17, 19)[0] == t[17]);
    }
    let a11 = st_numeric(a10, t, Numeric::Second);
    assert(a11 == Ok::<(int, Parsed), ParseError>((19, p6))) by {
        lemma_numeric_reads(t, 17, p5, Numeric::Second, sec as nat);
    }
    let a12 = st_space(st_fraction(a11, t), t);
    assert(a12 == Ok::<(int, Parsed), ParseError>((19 + lf, p7))) by {
        if !zulu {
            assert(t.subrange(19 + lf, 25 + lf)[0] == t[19 + lf]);
        }
        lemma_scan_fraction(t, 19, nano, p6);
    }
    let a13 = st_space(st_offset(a12, t, true, Colon::Loose, true), t);
    assert(a13 == Ok::<(int, Parsed), ParseError>((end, p8))) by {
        if !zulu {
            lemma_scan_offset_loose(t, 19 + lf, fix);
        }
    }
    assert(iso_str_fields(t) == st_end(a13, t));
    assert(p8 == rfc3339_fields(v, fix));
}

/// ISO 8601 text laid out as `lemma_iso_fields` asks reads back as the
/// instant written at the offset written.
proof fn lemma_iso_reads_back(t: Seq<u8>, v: (int, int), fix: int, lf: int, zulu: bool)
    requires
        datetime_valid(v),
        0 <= date_of(v).0 <= 9999,
        offset_in_range(fix),
        fix % 60 == 0,
        secs_in_range(v.0 - fix),
        v.1 >= 1_000_000_000 ==> v.0 % 60 == 59,
        lf == fraction_text(leap_free(v.1)).len(),
        t.subrange(0, 4) == fixed_width(date_of(v).0 as nat, 4),
        t.subrange(5, 7) == two_digits(date_of(v).1),
        t.subrange(8, 10) == two_digits(date_of(v).2),
        t.subrange(11, 13) == two_digits(time_of(v).0 / 3600),
        t.subrange(14, 16) == two_digits(time_of(v).0 / 60 % 60),
        t.subrange(17, 19) == two_digits(shown_second(time_of(v))),
        t.subrange(19, 19 + lf) == fraction_text(leap_free(v.1)),
        t[4] == 45 && t[7] == 45 && t[10] == 84 && t[13] == 58 && t[16] == 58,
        zulu ==> fix == 0 && t.len() == 20 + lf && t[19 + lf] == 90,
        !zulu ==> t.len() == 25 + lf && t.subrange(19 + lf, 25 + lf) == offset_hhmm(fix, true)
            && (t[19 + lf] == 43 || t[19 + lf] == 45),
    ensures
        iso_str_spec(t) == Ok::<((int, int), int), ParseError>((utc_of(v, fix), fix)),
{
    lemma_iso_fields(t, v, fix, lf, zulu);
    lemma_resolve_written(v, rfc3339_fields(v, fix));
}

/// An offset of whole minutes is written the same by `fixed_offset_text`
/// and `offset_hhmm` with a colon.
proof fn lemma_whole_minutes_text(fix: int)
    requires
        fix % 60 == 0,
    ensures
        fixed_offset_text(fix) == offset_hhmm(fix, true),
{
    assert(fix < 0 ==> fix <= -60);
    assert(abs(fix) % 60 == 0);
    assert(fixed_offset_text(fix) =~= offset_hhmm(fix, true));
}

/// The text `Debug` writes of a date-time at a fixed offset reads back, as
/// `FromStr` reads it, as the same instant at the same offset, for years
/// from 0 to 9999, offsets of whole minutes, and leap seconds only in the
/// last second of a minute.
pub proof fn lemma_debug_roundtrip_fixed(dt: DateTime<FixedOffset>)
    requires
        dt.inv(),
        dt.local_held(),
        0 <= date_of(dt.local()).0 <= 9999,
        dt.fix() % 60 == 0,
        dt.local().1 >= 1_000_000_000 ==> dt.local().0 % 60 == 59,
    ensures
        iso_str_spec(encode_utf8(ascii_chars(naive_text(dt.local(), 84u8) + dt@.1.debug_spec())))
            == Ok::<((int, int), int), ParseError>((dt@.0, dt.fix())),
{
    dt.lemma_inv();
    let v = dt.local();
    let fix = dt.fix();
    assert(dt@.1.debug_spec() == offset_hhmm(fix, true)) by {
        lemma_whole_minutes_text(fix);
    }
    assert(utc_of(v, fix) == dt@.0);
    lemma_rfc3339_text_as_iso(v, fix);
}

/// RFC 3339 text of a local date-time `v` at offset `fix` reads back in
/// the ISO 8601 form as the same instant at the same offset.
proof fn lemma_rfc3339_text_as_iso(v: (int, int), fix: int)
    requires
        datetime_valid(v),
        0 <= date_of(v).0 <= 9999,
        offset_in_range(fix),
        fix % 60 == 0,
        secs_in_range(v.0 - fix),
        v.1 >= 1_000_000_000 ==> v.0 % 60 == 59,
    ensures
        iso_str_spec(encode_utf8(ascii_chars(rfc3339_text(v, fix)))) == Ok::<
            ((int, int), int),
            ParseError,
        >((utc_of(v, fix), fix)),
{
    let t = rfc3339_text(v, fix);
    let lf = fraction_text(leap_free(v.1)).len() as int;
    assert(is_ascii_bytes(t)) by {
        lemma_rfc3339_layout(v, fix);
    }
    assert(encode_utf8(ascii_chars(t)) == t) by {
        lemma_ascii_utf8(t);
    }
    assert(iso_str_spec(t) == Ok::<((int, int), int), ParseError>((utc_of(v, fix), fix))) by {
        lemma_rfc3339_layout(v, fix);
        lemma_iso_reads_back(t, v, fix, lf, false);
    }
}

/// Where the pieces of the ISO 8601 text of `v` with `Z` for its offset
/// stand.
proof fn lemma_zulu_layout(v: (int, int))
    requires
        datetime_valid(v),
        0 <= date_of(v).0 <= 9999,
    ensures
        ({
            let t = naive_text(v, 84u8) + seq![90u8];
            let d = date_of(v);
            let tt = time_of(v);
            let lf = fraction_text(leap_free(v.1)).len() as int;
            &&& t.len() == 20 + lf
            &&& t.subrange(0, 4) == fixed_width(d.0 as nat, 4)
            &&& t.subrange(5, 7) == two_digits(d.1)
            &&& t.subrange(8, 10) == two_digits(d.2)
            &&& t.subrange(11, 13) == two_digits(tt.0 / 3600)
            &&& t.subrange(14, 16) == two_digits(tt.0 / 60 % 60)
            &&& t.subrange(17, 19) == two_digits(shown_second(tt))
            &&& t.subrange(19, 19 + lf) == fraction_text(leap_free(v.1))
            &&& t[4] == 45 && t[7] == 45 && t[10] == 84 && t[13] == 58 && t[16] == 58
            &&& t[19 + lf] == 90
            &&& is_ascii_bytes(t)
        }),
{
    let t = naive_text(v, 84u8) + seq![90u8];
    let t0 = rfc3339_text(v, 0);
    let lf = fraction_text(leap_free(v.1)).len() as int;
    lemma_rfc3339_layout(v, 0);
    assert(offset_hhmm(0, true).len() == 6) by {
        lemma_fixed_width(0, 2);
    }
    assert(naive_text(v, 84u8) =~= t0.subrange(0, 19 + lf));
    assert(t.subrange(0, 4) =~= t0.subrange(0, 4));
    assert(t.subrange(5, 7) =~= t0.subrange(5, 7));
    assert(t.subrange(8, 10) =~= t0.subrange(8, 10));
    assert(t.subrange(11, 13) =~= t0.subrange(11, 13));
    assert(t.subrange(14, 16) =~= t0.subrange(14, 16));
    assert(t.subrange(17, 19) =~= t0.subrange(17, 19));
    assert(t.subrange(19, 19 + lf) =~= t0.subrange(19, 19 + lf));
    assert forall|i: int| 0 <= i < t.len() implies #[trigger] t[i] < 128 by {
        if i < 19 + lf {
            assert(t[i] == t0[i]);
        }
    }
}

/// The text `Debug` writes of a date-time in UTC reads back, as `FromStr`
/// reads it, as the same instant, for years from 0 to 9999 and leap seconds
/// only in the last second of a minute.
pub proof fn lemma_debug_roundtrip_utc(dt: DateTime<UTC>)
    requires
        dt.inv(),
        dt.local_held(),
        0 <= date_of(dt.local()).0 <= 9999,
        dt.local().1 >= 1_000_000_000 ==> dt.local().0 % 60 == 59,
    ensures
        iso_str_spec(encode_utf8(ascii_chars(naive_text(dt.local(), 84u8) + dt@.1.debug_spec())))
            == Ok::<((int, int), int), ParseError>((dt@.0, 0)),
{
    dt.lemma_inv();
    let v = dt.local();
    let t = naive_text(v, 84u8) + dt@.1.debug_spec();
    let lf = fraction_text(leap_free(v.1)).len() as int;
    assert(dt.fix() == 0);
    lemma_zulu_layout(v);
    assert(encode_utf8(ascii_chars(t)) == t) by {
        lemma_ascii_utf8(t);
    }
    assert(utc_of(v, 0) == dt@.0);
    lemma_iso_reads_back(t, v, 0, lf, true);
}

/// A short day name written at `i` is read back as that day.
pub proof fn lemma_weekday_name_reads(s: Seq<u8>, i: int, w: int)
    requires
        0 <= w < 7,
        0 <= i,
        i + 3 <= s.len(),
        s.subrange(i, i + 3) == short_weekday_name(w),
    ensures
        scan_short_weekday(s, i) == Ok::<(int, int), ParseError>((i + 3, w)),
{
    let n = short_weekday_name(w);
    assert(s[i] == n[0] && s[i + 1] == n[1] && s[i + 2] == n[2]) by {
        assert(s.subrange(i, i + 3)[0] == s[i]);
        assert(s.subrange(i, i + 3)[1] == s[i + 1]);
        assert(s.subrange(i, i + 3)[2] == s[i + 2]);
    }
    assert(name_at(s, i, n)) by {
        assert forall|k: int| 0 <= k < n.len() implies fold_case(#[trigger] s[i + k]) == fold_case(
            n[k],
        ) by {
            assert(k == 0 || k == 1 || k == 2);
        }
    }
    reveal_with_fuel(weekday_named, 8);
}

/// A short month name written at `i` is read back as that month.
pub proof fn lemma_month_name_reads(s: Seq<u8>, i: int, m: int)
    requires
        1 <= m <= 12,
        0 <= i,
        i + 3 <= s.len(),
        s.subrange(i, i + 3) == short_month_name(m),
    ensures
        scan_short_month(s, i) == Ok::<(int, int), ParseError>((i + 3, m)),
{
    let n = short_month_name(m);
    assert(s[i] == n[0] && s[i + 1] == n[1] && s[i + 2] == n[2]) by {
        assert(s.subrange(i, i + 3)[0] == s[i]);
        assert(s.subrange(i, i + 3)[1] == s[i + 1]);
        assert(s.subrange(i, i + 3)[2] == s[i + 2]);
    }
    assert(name_at(s, i, n)) by {
        assert forall|k: int| 0 <= k < n.len() implies fold_case(#[trigger] s[i + k]) == fold_case(
            n[k],
        ) by {
            assert(k == 0 || k == 1 || k == 2);
        }
    }
    reveal_with_fuel(month_named, 13);
}

/// A year from 0 on is written with at least four digits, which read back
/// as the year.
pub proof fn lemma_padded_year_digits(y: int)
    requires
        0 <= y <= MAX_YEAR,
    ensures
        4 <= wider(4, num_digits(y)) <= 6,
        y < pow10(wider(4, num_digits(y))),
        padded_year(y) == fixed_width(y as nat, wider(4, num_digits(y))),
{
    assert(pow10(4) == 10000 && pow10(5) == 100000 && pow10(6) == 1000000) by {
        reveal_with_fuel(pow10, 7);
    }
}

/// Where the pieces of the RFC 2822 text of `v` at `fix` stand: the day
/// ends at `q`, the year at `r`.
#[verifier::rlimit(100)]
proof fn lemma_rfc2822_layout(v: (int, int), fix: int)
    requires
        datetime_valid(v),
        0 <= date_of(v).0,
        offset_in_range(fix),
    ensures
        ({
            let t = rfc2822_text(v, fix);
            let d = date_of(v);
            let tt = time_of(v);
            let ly = wider(4, num_digits(d.0)) as int;
            let q = 5 + day_digits(d.2) as int;
            let r = q + 5 + ly;
            &&& 4 <= ly <= 6
            &&& t.len() == r + 15
            &&& t.subrange(0, 3) == short_weekday_name(weekday_index(v.0 / 86400))
            &&& t[3] == 44 && t[4] == 32
            &&& t.subrange(5, q) == day_text(d.2)
            &&& t[q] == 32
            &&& t.subrange(q + 1, q + 4) == short_month_name(d.1)
            &&& t[q + 4] == 32
            &&& t.subrange(q + 5, r) == fixed_width(d.0 as nat, ly as nat)
            &&& t[r] == 32
            &&& t.subrange(r + 1, r + 3) == two_digits(tt.0 / 3600)
            &&& t[r + 3] == 58
            &&& t.subrange(r + 4, r + 6) == two_digits(tt.0 / 60 % 60)
            &&& t[r + 6] == 58
            &&& t.subrange(r + 7, r + 9) == two_digits(shown_second(tt))
            &&& t[r + 9] == 32
            &&& t.subrange(r + 10, r + 15) == offset_hhmm(fix, false)
            &&& is_ascii_bytes(t)
        }),
{
    lemma_date_of_valid(v);
    let d = date_of(v);
    let tt = time_of(v);
    lemma_hms_split(tt.0);
    lemma_padded_year_digits(d.0);
    let ly = wider(4, num_digits(d.0)) as int;
    let dl = day_digits(d.2) as int;
    let q = 5 + dl;
    let r = q + 5 + ly;
    let wn = short_weekday_name(weekday_index(v.0 / 86400));
    let dd = day_text(d.2);
    let mn = short_month_name(d.1);
    let y = fixed_width(d.0 as nat, ly as nat);
    let h2 = two_digits(tt.0 / 3600);
    let n2 = two_digits(tt.0 / 60 % 60);
    let s2 = two_digits(shown_second(tt));
    let off = offset_hhmm(fix, false);
    lemma_fixed_width(d.0 as nat, ly as nat);
    lemma_fixed_width(d.2 as nat, dl as nat);
    lemma_fixed_width((tt.0 / 3600) as nat, 2);
    lemma_fixed_width((tt.0 / 60 % 60) as nat, 2);
    lemma_fixed_width(shown_second(tt) as nat, 2);
    lemma_fixed_width((abs(fix) / 3600) as nat, 2);
    lemma_fixed_width((abs(fix) / 60 % 60) as nat, 2);
    lemma_offset_ascii(fix, false);
    assert(wn.len() == 3 && mn.len() == 3 && dd.len() == dl && off.len() == 5);
    let t = rfc2822_text(v, fix);
    assert(t =~= wn + seq![44u8, 32u8] + dd + seq![32u8] + mn + seq![32u8] + y + seq![32u8] + h2
        + seq![58u8] + n2 + seq![58u8] + s2 + seq![32u8] + off);
    assert(t.subrange(0, 3) =~= wn);
    assert(t.subrange(5, q) =~= dd);
    assert(t.subrange(q + 1, q + 4) =~= mn);
    assert(t.subrange(q + 5, r) =~= y);
    assert(t.subrange(r + 1, r + 3) =~= h2);
    assert(t.subrange(r + 4, r + 6) =~= n2);
    assert(t.subrange(r + 7, r + 9) =~= s2);
    assert(t.subrange(r + 10, r + 15) =~= off);
    assert(is_ascii_bytes(wn) && is_ascii_bytes(mn) && is_ascii_bytes(dd));
    assert forall|i: int| 0 <= i < t.len() implies #[trigger] t[i] < 128 by {
        if i < 3 {
            assert(t[i] == wn[i]);
        } else if 5 <= i < q {
            assert(t[i] == dd[i - 5]);
        } else if q + 1 <= i < q + 4 {
            assert(t[i] == mn[i - q - 1]);
        } else if q + 5 <= i < r {
            assert(t[i] == y[i - q - 5]);
        } else if i >= r + 10 {
            assert(t[i] == off[i - r - 10]);
        }
    }
}

/// The fields read from RFC 2822 text laid out as `lemma_rfc2822_layout`
/// says.
pub open spec fn rfc2822_fields(v: (int, int), fix: int) -> Parsed {
    Parsed {
        year: Some(date_of(v).0 as i32),
        month: Some(date_of(v).1 as u32),
        day: Some(date_of(v).2 as u32),
        year_div_100: None,
        year_mod_100: None,
        ordinal: None,
        week_from_sun: None,
        week_from_mon: None,
        isoyear: None,
        isoyear_div_100: None,
        isoyear_mod_100: None,
        isoweek: None,
        hour_div_12: Some((time_of(v).0 / 3600 / 12) as u32),
        hour_mod_12: Some((time_of(v).0 / 3600 % 12) as u32),
        minute: Some((time_of(v).0 / 60 % 60) as u32),
        second: Some(shown_second(time_of(v)) as u32),
        nanosecond: None,
        offset: Some(fix as i32),
        weekday: Some(weekday_from_index(weekday_index(v.0 / 86400))),
    }
}

/// Reading RFC 2822 text laid out as `lemma_rfc2822_layout` says gives the
/// fields written.
#[verifier::rlimit(100)]
proof fn lemma_rfc2822_fields(t: Seq<u8>, v: (int, int), fix: int, ly: int)
    requires
        datetime_valid(v),
        0 <= date_of(v).0,
        offset_in_range(fix),
        fix % 60 == 0,
        ly == wider(4, num_digits(date_of(v).0)) as int,
        4 <= ly <= 6,
        ({
            let q = 5 + day_digits(date_of(v).2) as int;
            let r = q + 5 + ly;
            &&& t.len() == r + 15
            &&& t.subrange(0, 3) == short_weekday_name(weekday_index(v.0 / 86400))
            &&& t[3] == 44 && t[4] == 32
            &&& t.subrange(5, q) == day_text(date_of(v).2)
            &&& t[q] == 32
            &&& t.subrange(q + 1, q + 4) == short_month_name(date_of(v).1)
            &&& t[q + 4] == 32
            &&& t.subrange(q + 5, r) == fixed_width(date_of(v).0 as nat, ly as nat)
            &&& t[r] == 32
            &&& t.subrange(r + 1, r + 3) == two_digits(time_of(v).0 / 3600)
            &&& t[r + 3] == 58
            &&& t.subrange(r + 4, r + 6) == two_digits(time_of(v).0 / 60 % 60)
            &&& t[r + 6] == 58
            &&& t.subrange(r + 7, r + 9) == two_digits(shown_second(time_of(v)))
            &&& t[r + 9] == 32
            &&& t.subrange(r + 10, r + 15) == offset_hhmm(fix, false)
        }),
    ensures
        st_end(st_rfc2822(st_start(), t), t) == Ok::<Parsed, ParseError>(rfc2822_fields(v, fix)),
{
    lemma_date_of_valid(v);
    let d = date_of(v);
    let tt = time_of(v);
    lemma_hms_split(tt.0);
    lemma_padded_year_digits(d.0);
    let dl = day_digits(d.2) as int;
    let q = 5 + dl;
    let r = q + 5 + ly;
    let h = tt.0 / 3600;
    let mi = tt.0 / 60 % 60;
    let sec = shown_second(tt);
    let w = weekday_index(v.0 / 86400);
    assert(pow10(1) == 10 && pow10(2) == 100) by {
        reveal_with_fuel(pow10, 3);
    }
    let wn = short_weekday_name(w);
    let mn = short_month_name(d.1);
    assert(t[0] == wn[0]) by {
        assert(t.subrange(0, 3)[0] == t[0]);
    }
    assert(t[q + 1] == mn[0]) by {
        assert(t.subrange(q + 1, q + 4)[0] == t[q + 1]);
    }
    assert(!is_space(t[0]) && !is_space(t[q + 1]));
    let p0 = empty_parsed();
    let p1 = Parsed { weekday: Some(weekday_from_index(w)), ..p0 };
    let p2 = Parsed { day: Some(d.2 as u32), ..p1 };
    let p3 = Parsed { month: Some(d.1 as u32), ..p2 };
    let p4 = Parsed { year: Some(d.0 as i32), ..p3 };
    let p5 = Parsed { hour_div_12: Some((h / 12) as u32), hour_mod_12: Some((h % 12) as u32), ..p4 };
    let p6 = Parsed { minute: Some(mi as u32), ..p5 };
    let p7 = Parsed { second: Some(sec as u32), ..p6 };
    let p8 = Parsed { offset: Some(fix as i32), ..p7 };
    let a0 = st_space(st_start(), t);
    assert(a0 == Ok::<(int, Parsed), ParseError>((0, p0)));
    let a1 = st_rfc2822_weekday(a0, t);
    assert(a1 == Ok::<(int, Parsed), ParseError>((4, p1))) by {
        lemma_weekday_name_reads(t, 0, w);
    }
    let a2 = st_space(a1, t);
    lemma_fixed_width(d.2 as nat, dl as nat);
    assert(a2 == Ok::<(int, Parsed), ParseError>((5, p1))) by {
        assert(t[5] == day_text(d.2)[0]) by {
            assert(t.subrange(5, q)[0] == t[5]);
        }
        assert(skip_spaces(t, 5) == 5);
    }
    let a3 = st_digits(a2, t, 1, 2, Numeric::Day);
    assert(a3 == Ok::<(int, Parsed), ParseError>((q, p2))) by {
        lemma_scan_fixed(t, 5, d.2 as nat, dl as nat, 1, 2);
    }
    let a4 = st_space_req(a3, t);
    assert(a4 == Ok::<(int, Parsed), ParseError>((q + 1, p2))) by {
        assert(skip_spaces(t, q + 1) == q + 1);
    }
    let a5 = st_month_name(a4, t);
    assert(a5 == Ok::<(int, Parsed), ParseError>((q + 4, p3))) by {
        lemma_month_name_reads(t, q + 1, d.1);
    }
    let a6 = st_space_req(a5, t);
    lemma_fixed_width(d.0 as nat, ly as nat);
    assert(a6 == Ok::<(int, Parsed), ParseError>((q + 5, p3))) by {
        assert(t[q + 5] == fixed_width(d.0 as nat, ly as nat)[0]) by {
            assert(t.subrange(q + 5, r)[0] == t[q + 5]);
        }
        assert(skip_spaces(t, q + 5) == q + 5);
    }
    let a7 = st_year_2822(a6, t);
    assert(a7 == Ok::<(int, Parsed), ParseError>((r, p4))) by {
        lemma_scan_fixed(t, q + 5, d.0 as nat, ly as nat, 2, t.len() as int);
        assert(year_2822(d.0, ly) == d.0);
    }
    let a8 = st_space_req(a7, t);
    lemma_fixed_width(h as nat, 2);
    assert(a8 == Ok::<(int, Parsed), ParseError>((r + 1, p4))) by {
        assert(t[r + 1] == two_digits(h)[0]) by {
            assert(t.subrange(r + 1, r + 3)[0] == t[r + 1]);
        }
        assert(skip_spaces(t, r + 1) == r + 1);
    }
    let a9 = st_digits(a8, t, 2, 2, Numeric::Hour);
    assert(a9 == Ok::<(int, Parsed), ParseError>((r + 3, p5))) by {
        lemma_scan_fixed(t, r + 1, h as nat, 2, 2, 2);
    }
    let a10 = st_space(st_char(st_space(a9, t), t, 58u8), t);
    lemma_fixed_width(mi as nat, 2);
    assert(a10 == Ok::<(int, Parsed), ParseError>((r + 4, p5))) by {
        assert(t[r + 4] == two_digits(mi)[0]) by {
            assert(t.subrange(r + 4, r + 6)[0] == t[r + 4]);
        }
    }
    let a11 = st_digits(a10, t, 2, 2, Numeric::Minute);
    assert(a11 == Ok::<(int, Parsed), ParseError>((r + 6, p6))) by {
        lemma_scan_fixed(t, r + 4, mi as nat, 2, 2, 2);
    }
    let a12 = st_opt_seconds(a11, t);
    lemma_fixed_width(sec as nat, 2);
    assert(a12 == Ok::<(int, Parsed), ParseError>((r + 9, p7))) by {
        assert(t[r + 7] == two_digits(sec)[0]) by {
            assert(t.subrange(r + 7, r + 9)[0] == t[r + 7]);
        }
        assert(skip_spaces(t, r + 7) == r + 7);
        lemma_scan_fixed(t, r + 7, sec as nat, 2, 2, 2);
    }
    let a13 = st_space_req(a12, t);
    let o = offset_hhmm(fix, false);
    assert(t[r + 10] == o[0]) by {
        assert(t.subrange(r + 10, r + 15)[0] == t[r + 10]);
    }
    assert(a13 == Ok::<(int, Parsed), ParseError>((r + 10, p7))) by {
        assert(o[0] == 43 || o[0] == 45);
        assert(skip_spaces(t, r + 10) == r + 10);
    }
    let a14 = st_zone_2822(a13, t);
    assert(a14 == Ok::<(int, Parsed), ParseError>((r + 15, p8))) by {
        assert(o[0] == 43 || o[0] == 45);
        lemma_scan_offset_hhmm(t, r + 10, fix, false);
        assert(alpha_end(t, r + 10) == r + 10);
        assert(fix == 0 ==> o[0] == 43);
    }
    assert(st_rfc2822(st_start(), t) == a14);
}

/// The RFC 2822 text of a local date-time `v` at offset `fix` reads back as
/// the same instant at the same offset, for years from 0 on, offsets of
/// whole minutes, and no fraction of a second except a whole leap second in
/// the last second of a minute.
pub proof fn lemma_rfc2822_reads_back(v: (int, int), fix: int)
    requires
        datetime_valid(v),
        0 <= date_of(v).0,
        offset_in_range(fix),
        fix % 60 == 0,
        secs_in_range(v.0 - fix),
        v.1 == 0 || (v.1 == 1_000_000_000 && v.0 % 60 == 59),
    ensures
        rfc2822_spec(rfc2822_text(v, fix)) == Ok::<((int, int), int), ParseError>(
            (utc_of(v, fix), fix),
        ),
{
    let t = rfc2822_text(v, fix);
    let ly = wider(4, num_digits(date_of(v).0)) as int;
    lemma_rfc2822_layout(v, fix);
    lemma_rfc2822_fields(t, v, fix, ly);
    lemma_resolve_written(v, rfc2822_fields(v, fix));
}

/// The RFC 2822 text of a local date-time is ASCII.
proof fn lemma_rfc2822_ascii(v: (int, int), fix: int)
    requires
        datetime_valid(v),
        0 <= date_of(v).0,
        offset_in_range(fix),
    ensures
        is_ascii_bytes(rfc2822_text(v, fix)),
{
    lemma_rfc2822_layout(v, fix);
}

/// Reading back the RFC 2822 text of a date-time gives the same instant at
/// its offset, for years from 0 on, offsets of whole minutes, and no
/// fraction of a second except a whole leap second in the last second of a
/// minute.
pub proof fn lemma_rfc2822_roundtrip<Tz: Offset>(dt: DateTime<Tz>)
    requires
        dt.inv(),
        dt.local_held(),
        0 <= date_of(dt.local()).0,
        dt.fix() % 60 == 0,
        dt.local().1 == 0 || (dt.local().1 == 1_000_000_000 && dt.local().0 % 60 == 59),
    ensures
        rfc2822_spec(encode_utf8(ascii_chars(rfc2822_text(dt.local(), dt.fix())))) == Ok::<
            ((int, int), int),
            ParseError,
        >((dt@.0, dt.fix())),
{
    let v = dt.local();
    let fix = dt.fix();
    assert(datetime_valid(v) && offset_in_range(fix) && datetime_valid(dt@.0)) by {
        dt.lemma_inv();
    }
    assert(utc_of(v, fix) == dt@.0);
    lemma_rfc2822_text_reads_back(v, fix);
}

/// The RFC 2822 text of a local date-time `v` at offset `fix`, as the
/// characters of a string, reads back as the instant written at `fix`.
proof fn lemma_rfc2822_text_reads_back(v: (int, int), fix: int)
    requires
        datetime_valid(v),
        0 <= date_of(v).0,
        offset_in_range(fix),
        fix % 60 == 0,
        secs_in_range(v.0 - fix),
        v.1 == 0 || (v.1 == 1_000_000_000 && v.0 % 60 == 59),
    ensures
        rfc2822_spec(encode_utf8(ascii_chars(rfc2822_text(v, fix)))) == Ok::<
            ((int, int), int),
            ParseError,
        >((utc_of(v, fix), fix)),
{
    let t = rfc2822_text(v, fix);
    assert(encode_utf8(ascii_chars(t)) == t) by {
        lemma_rfc2822_ascii(v, fix);
        lemma_ascii_utf8(t);
    }
    assert(rfc2822_spec(t) == Ok::<((int, int), int), ParseError>((utc_of(v, fix), fix))) by {
        lemma_rfc2822_reads_back(v, fix);
    }
}

} // verus!
