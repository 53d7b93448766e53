//! Scanning of the pieces of date-time text: white space, numbers,
//! fractions of a second and offsets from UTC.
use vstd::prelude::*;
use crate::text::pow10;
use crate::format::{short_weekday_name, short_month_name, short_weekday_bytes, short_month_bytes};

verus! {

/// Why a text could not be read as a date-time.
#[derive(Clone, Copy, Debug, PartialEq, Eq, Structural)]
pub enum ParseError {
    /// A field is outside the range it can take.
    OutOfRange,
    /// The fields contradict each other.
    Impossible,
    /// A field needed for the result is missing.
    NotEnough,
    /// A character does not fit the expected form.
    Invalid,
    /// The text ends too early.
    TooShort,
    /// Text remains after the expected form.
    TooLong,
    /// The format description itself is malformed.
    BadFormat,
}

/// Whether `b` is ASCII white space.
pub open spec fn is_space(b: u8) -> bool {
    b == 32 || (9 <= b <= 13)
}

/// Whether `b` is an ASCII digit.
pub open spec fn is_digit(b: u8) -> bool {
    48 <= b <= 57
}

/// Position of the first byte at or after `i` that is not white space.
pub open spec fn skip_spaces(s: Seq<u8>, i: int) -> int
    decreases s.len() - i,
{
    if 0 <= i < s.len() && is_space(s[i]) {
        skip_spaces(s, i + 1)
    } else {
        i
    }
}

/// End of the run of at most `max` digits starting at `i`.
pub open spec fn digit_run_end(s: Seq<u8>, i: int, max: int) -> int
    decreases max,
{
    if max > 0 && 0 <= i < s.len() && is_digit(s[i]) {
        digit_run_end(s, i + 1, max - 1)
    } else {
        i
    }
}

/// End of the run of digits starting at `i`.
pub open spec fn all_digits_end(s: Seq<u8>, i: int) -> int
    decreases s.len() - i,
{
    if 0 <= i < s.len() && is_digit(s[i]) {
        all_digits_end(s, i + 1)
    } else {
        i
    }
}

/// The number written by the digits `s[i..j]`.
pub open spec fn digits_value(s: Seq<u8>, i: int, j: int) -> int
    decreases j - i,
{
    if j <= i {
        0
    } else {
        digits_value(s, i, j - 1) * 10 + (s[j - 1] - 48)
    }
}

/// Reads between `min` and `max` digits at `i`; gives the end position and
/// the number, which must fit in an `i64`.
pub open spec fn scan_number(s: Seq<u8>, i: int, min: int, max: int) -> Result<
    (int, int),
    ParseError,
> {
    let j = digit_run_end(s, i, max);
    if j - i < min {
        Err(
            if i >= s.len() {
                ParseError::TooShort
            } else {
                ParseError::Invalid
            },
        )
    } else if digits_value(s, i, j) > i64::MAX {
        Err(ParseError::OutOfRange)
    } else {
        Ok((j, digits_value(s, i, j)))
    }
}

/// Powers of ten that scale `k` digits of a fraction to nanoseconds.
pub open spec fn nano_scale(k: int) -> int {
    if k == 1 {
        100_000_000
    } else if k == 2 {
        10_000_000
    } else if k == 3 {
        1_000_000
    } else if k == 4 {
        100_000
    } else if k == 5 {
        10_000
    } else if k == 6 {
        1_000
    } else if k == 7 {
        100
    } else if k == 8 {
        10
    } else {
        1
    }
}

/// Reads the digits of a fraction of a second at `i`: the first nine give
/// nanoseconds, further ones are skipped.
pub open spec fn scan_nanosecond(s: Seq<u8>, i: int) -> Result<(int, int), ParseError> {
    match scan_number(s, i, 1, 9) {
        Ok((j, v)) => Ok((all_digits_end(s, j), v * nano_scale(j - i))),
        Err(e) => Err(e),
    }
}

/// Skips colons and white space.
pub open spec fn skip_colons_spaces(s: Seq<u8>, i: int) -> int
    decreases s.len() - i,
{
    if 0 <= i < s.len() && (s[i] == 58 || is_space(s[i])) {
        skip_colons_spaces(s, i + 1)
    } else {
        i
    }
}

/// Requires the byte `c` at `i`.
pub open spec fn scan_char(s: Seq<u8>, i: int, c: u8) -> Result<int, ParseError> {
    if i >= s.len() {
        Err(ParseError::TooShort)
    } else if s[i] != c {
        Err(ParseError::Invalid)
    } else {
        Ok(i + 1)
    }
}

/// What may stand between the hours and the minutes of an offset.
#[derive(Clone, Copy, Debug, PartialEq, Eq, Structural)]
pub enum Colon {
    /// Exactly one colon.
    Exact,
    /// Any run of colons and white space, possibly empty.
    Loose,
    /// Nothing.
    Absent,
}

/// The separator between the hours and minutes of an offset, read as
/// `colon` says.
pub open spec fn scan_offset_colon(s: Seq<u8>, i: int, colon: Colon) -> Result<int, ParseError> {
    match colon {
        Colon::Exact => scan_char(s, i, 58u8),
        Colon::Loose => Ok(skip_colons_spaces(s, i)),
        Colon::Absent => Ok(i),
    }
}

/// Reads an offset `+HH:MM` or `-HH:MM` at `i`, in seconds; the separator
/// is read as `scan_offset_colon` says.
pub open spec fn scan_offset(s: Seq<u8>, i: int, colon: Colon) -> Result<(int, int), ParseError> {
    if i >= s.len() {
        Err(ParseError::TooShort)
    } else if s[i] != 43 && s[i] != 45 {
        Err(ParseError::Invalid)
    } else if i + 3 > s.len() {
        Err(ParseError::TooShort)
    } else if !is_digit(s[i + 1]) || !is_digit(s[i + 2]) {
        Err(ParseError::Invalid)
    } else {
        let hours = (s[i + 1] - 48) * 10 + (s[i + 2] - 48);
        match scan_offset_colon(s, i + 3, colon) {
            Err(e) => Err(e),
            Ok(j) => if j + 2 > s.len() {
                Err(ParseError::TooShort)
            } else if !is_digit(s[j + 1]) || !is_digit(s[j]) {
                Err(ParseError::Invalid)
            } else if s[j] >= 54 {
                Err(ParseError::OutOfRange)
            } else {
                let minutes = (s[j] - 48) * 10 + (s[j + 1] - 48);
                let secs = hours * 3600 + minutes * 60;
                Ok((j + 2, if s[i] == 45 { -secs } else { secs }))
            },
        }
    }
}

/// Reads `Z`, `z` or an offset at `i`, in seconds.
pub open spec fn scan_offset_zulu(s: Seq<u8>, i: int, colon: Colon) -> Result<
    (int, int),
    ParseError,
> {
    if i < s.len() && (s[i] == 90 || s[i] == 122) {
        Ok((i + 1, 0))
    } else {
        scan_offset(s, i, colon)
    }
}

/// Numbers written with digits are never negative and grow as digits are
/// added.
pub proof fn lemma_digits_value_grows(s: Seq<u8>, i: int, j: int)
    requires
        forall|k: int| i <= k < j ==> is_digit(#[trigger] s[k]),
        0 <= i,
        j <= s.len(),
    ensures
        digits_value(s, i, j) >= 0,
        i < j ==> digits_value(s, i, j) >= digits_value(s, i, j - 1),
    decreases j - i,
{
    if i < j {
        lemma_digits_value_grows(s, i, j - 1);
    }
}

/// A number of `k` digits is below `10^k`.
pub proof fn lemma_digits_value_bound(s: Seq<u8>, i: int, j: int)
    requires
        forall|k: int| i <= k < j ==> is_digit(#[trigger] s[k]),
        0 <= i <= j <= s.len(),
    ensures
        0 <= digits_value(s, i, j) < pow10((j - i) as nat),
    decreases j - i,
{
    if i < j {
        lemma_digits_value_bound(s, i, j - 1);
        assert(pow10((j - i) as nat) == 10 * pow10((j - 1 - i) as nat));
    }
}

/// Scaling a fraction of `k` digits gives the power of ten that makes a second.
pub proof fn lemma_nano_scale(k: int)
    requires
        1 <= k <= 9,
    ensures
        nano_scale(k) * pow10(k as nat) == 1_000_000_000,
{
    reveal_with_fuel(pow10, 10);
}

/// Position of the first byte at or after `i` that is not white space.
pub fn skip_spaces_at(s: &[u8], i: usize) -> (r: usize)
    requires
        i <= s.len(),
    ensures
        r == skip_spaces(s@, i as int),
        i <= r <= s.len(),
{
    let mut j = i;
    while j < s.len() && (s[j] == 32 || (9 <= s[j] && s[j] <= 13))
        invariant
            i <= j <= s.len(),
            skip_spaces(s@, i as int) == skip_spaces(s@, j as int),
        decreases s.len() - j,
    {
        j = j + 1;
    }
    j
}

/// Skips colons and white space.
pub fn skip_colons_spaces_at(s: &[u8], i: usize) -> (r: usize)
    requires
        i <= s.len(),
    ensures
        r == skip_colons_spaces(s@, i as int),
        i <= r <= s.len(),
{
    let mut j = i;
    while j < s.len() && (s[j] == 58 || s[j] == 32 || (9 <= s[j] && s[j] <= 13))
        invariant
            i <= j <= s.len(),
            skip_colons_spaces(s@, i as int) == skip_colons_spaces(s@, j as int),
        decreases s.len() - j,
    {
        j = j + 1;
    }
    j
}

/// End of the run of digits starting at `i`.
pub fn all_digits_end_at(s: &[u8], i: usize) -> (r: usize)
    requires
        i <= s.len(),
    ensures
        r == all_digits_end(s@, i as int),
        i <= r <= s.len(),
{
    let mut j = i;
    while j < s.len() && 48 <= s[j] && s[j] <= 57
        invariant
            i <= j <= s.len(),
            all_digits_end(s@, i as int) == all_digits_end(s@, j as int),
        decreases s.len() - j,
    {
        j = j + 1;
    }
    j
}

/// Reads between `min` and `max` digits at `i`.
pub fn scan_number_at(s: &[u8], i: usize, min: usize, max: usize) -> (r: Result<(usize, i64), ParseError>)
    requires
        i <= s.len(),
        1 <= min <= max,
    ensures
        match r {
            Ok((j, v)) => scan_number(s@, i as int, min as int, max as int) == Ok::<(int, int), ParseError>((j as int, v as int)),
            Err(e) => scan_number(s@, i as int, min as int, max as int) == Err::<(int, int), ParseError>(e),
        },
        r matches Ok((j, v)) ==> i < j <= s.len() && v >= 0,
{
    let mut j = i;
    let mut v: i64 = 0;
    let mut over = false;
    while j < s.len() && j - i < max && 48 <= s[j] && s[j] <= 57
        invariant
            i <= j <= s.len(),
            j - i <= max,
            digit_run_end(s@, i as int, max as int) == digit_run_end(
                s@,
                j as int,
                max - (j - i),
            ),
            forall|k: int| i <= k < j ==> is_digit(#[trigger] s@[k]),
            !over ==> v == digits_value(s@, i as int, j as int),
            over ==> digits_value(s@, i as int, j as int) > i64::MAX,
            v >= 0,
        decreases s.len() - j,
    {
        let d = (s[j] - 48) as i64;
        j = j + 1;
        proof {
            lemma_digits_value_grows(s@, i as int, j as int);
        }
        if !over {
            if v > (i64::MAX - d) / 10 {
                over = true;
            } else {
                v = v * 10 + d;
            }
        }
    }
    if j - i < min {
        if i >= s.len() {
            Err(ParseError::TooShort)
        } else {
            Err(ParseError::Invalid)
        }
    } else if over {
        Err(ParseError::OutOfRange)
    } else {
        Ok((j, v))
    }
}

/// Reads the digits of a fraction of a second at `i`.
pub fn scan_nanosecond_at(s: &[u8], i: usize) -> (r: Result<(usize, i64), ParseError>)
    requires
        i <= s.len(),
    ensures
        match r {
            Ok((j, v)) => scan_nanosecond(s@, i as int) == Ok::<(int, int), ParseError>((j as int, v as int)),
            Err(e) => scan_nanosecond(s@, i as int) == Err::<(int, int), ParseError>(e),
        },
        r matches Ok((j, v)) ==> i < j <= s.len() && 0 <= v < 1_000_000_000,
{
    match scan_number_at(s, i, 1, 9) {
        Ok((j, v)) => {
            let k = j - i;
            let scale: i64 = if k == 1 {
                100_000_000
            } else if k == 2 {
                10_000_000
            } else if k == 3 {
                1_000_000
            } else if k == 4 {
                100_000
            } else if k == 5 {
                10_000
            } else if k == 6 {
                1_000
            } else if k == 7 {
                100
            } else if k == 8 {
                10
            } else {
                1
            };
            proof {
                lemma_digit_run(s@, i as int, 9);
                lemma_digits_value_bound(s@, i as int, j as int);
                lemma_nano_scale(k as int);
                let p = pow10(k as nat);
                assert(v * scale < 1_000_000_000) by (nonlinear_arith)
                    requires
                        0 <= v < p,
                        scale * p == 1_000_000_000,
                        scale > 0,
                ;
            }
            let e = all_digits_end_at(s, j);
            Ok((e, v * scale))
        },
        Err(e) => Err(e),
    }
}

/// The run found by `digit_run_end` is made of digits and is at most `max` long.
pub proof fn lemma_digit_run(s: Seq<u8>, i: int, max: int)
    requires
        0 <= i,
    ensures
        i <= digit_run_end(s, i, max),
        digit_run_end(s, i, max) <= s.len() || digit_run_end(s, i, max) == i,
        max >= 0 ==> digit_run_end(s, i, max) - i <= max,
        forall|k: int| i <= k < digit_run_end(s, i, max) ==> is_digit(#[trigger] s[k]),
    decreases max,
{
    if max > 0 && 0 <= i < s.len() && is_digit(s[i]) {
        lemma_digit_run(s, i + 1, max - 1);
    }
}

/// Requires the byte `c` at `i`.
pub fn scan_char_at(s: &[u8], i: usize, c: u8) -> (r: Result<usize, ParseError>)
    requires
        i <= s.len(),
    ensures
        match r {
            Ok(j) => scan_char(s@, i as int, c) == Ok::<int, ParseError>(j as int),
            Err(e) => scan_char(s@, i as int, c) == Err::<int, ParseError>(e),
        },
        r matches Ok(j) ==> j == i + 1 && j <= s.len(),
{
    if i >= s.len() {
        Err(ParseError::TooShort)
    } else if s[i] != c {
        Err(ParseError::Invalid)
    } else {
        Ok(i + 1)
    }
}

/// Reads an offset `+HH:MM` or `-HH:MM` at `i`, in seconds.
pub fn scan_offset_at(s: &[u8], i: usize, colon: Colon) -> (r: Result<(usize, i32), ParseError>)
    requires
        i <= s.len(),
    ensures
        match r {
            Ok((j, v)) => scan_offset(s@, i as int, colon) == Ok::<(int, int), ParseError>((j as int, v as int)),
            Err(e) => scan_offset(s@, i as int, colon) == Err::<(int, int), ParseError>(e),
        },
        r matches Ok((j, v)) ==> i < j <= s.len() && -360000 < v < 360000,
{
    if i >= s.len() {
        return Err(ParseError::TooShort);
    }
    if s[i] != 43 && s[i] != 45 {
        return Err(ParseError::Invalid);
    }
    if s.len() - i < 3 {
        return Err(ParseError::TooShort);
    }
    if !(48 <= s[i + 1] && s[i + 1] <= 57) || !(48 <= s[i + 2] && s[i + 2] <= 57) {
        return Err(ParseError::Invalid);
    }
    let hours: i32 = (s[i + 1] - 48) as i32 * 10 + (s[i + 2] - 48) as i32;
    let j = match colon {
        Colon::Exact => match scan_char_at(s, i + 3, 58u8) {
            Ok(j) => j,
            Err(e) => {
                return Err(e);
            },
        },
        Colon::Loose => skip_colons_spaces_at(s, i + 3),
        Colon::Absent => i + 3,
    };
    if s.len() - j < 2 {
        return Err(ParseError::TooShort);
    }
    if !(48 <= s[j + 1] && s[j + 1] <= 57) || !(48 <= s[j] && s[j] <= 57) {
        return Err(ParseError::Invalid);
    }
    if s[j] >= 54 {
        return Err(ParseError::OutOfRange);
    }
    let minutes: i32 = (s[j] - 48) as i32 * 10 + (s[j + 1] - 48) as i32;
    let secs = hours * 3600 + minutes * 60;
    Ok((j + 2, if s[i] == 45 {
        -secs
    } else {
        secs
    }))
}

/// Reads `Z`, `z` or an offset at `i`, in seconds.
pub fn scan_offset_zulu_at(s: &[u8], i: usize, colon: Colon) -> (r: Result<(usize, i32), ParseError>)
    requires
        i <= s.len(),
    ensures
        match r {
            Ok((j, v)) => scan_offset_zulu(s@, i as int, colon) == Ok::<(int, int), ParseError>((j as int, v as int)),
            Err(e) => scan_offset_zulu(s@, i as int, colon) == Err::<(int, int), ParseError>(e),
        },
        r matches Ok((j, v)) ==> i < j <= s.len() && -360000 < v < 360000,
{
    if i < s.len() && (s[i] == 90 || s[i] == 122) {
        Ok((i + 1, 0))
    } else {
        scan_offset_at(s, i, colon)
    }
}

/// Requires at least one byte of white space at `i` and skips all of it.
pub open spec fn scan_space(s: Seq<u8>, i: int) -> Result<int, ParseError> {
    if skip_spaces(s, i) > i {
        Ok(skip_spaces(s, i))
    } else if i >= s.len() {
        Err(ParseError::TooShort)
    } else {
        Err(ParseError::Invalid)
    }
}

/// The lower-case form of an ASCII letter; other bytes as they are.
pub open spec fn fold_case(b: u8) -> u8 {
    if 65 <= b <= 90 {
        (b + 32) as u8
    } else {
        b
    }
}

/// Whether `name` is written at `i`, its letters in any case.
pub open spec fn name_at(s: Seq<u8>, i: int, name: Seq<u8>) -> bool {
    &&& 0 <= i
    &&& i + name.len() <= s.len()
    &&& forall|k: int| 0 <= k < name.len() ==> fold_case(#[trigger] s[i + k]) == fold_case(name[k])
}

/// The first day of the week, from the `w`-th after Monday on, whose short
/// name is written at `i`.
pub open spec fn weekday_named(s: Seq<u8>, i: int, w: int) -> Option<int>
    decreases 7 - w,
{
    if w < 0 || w >= 7 {
        None
    } else if name_at(s, i, short_weekday_name(w)) {
        Some(w)
    } else {
        weekday_named(s, i, w + 1)
    }
}

/// The first month, from month `m` on, whose short name is written at `i`.
pub open spec fn month_named(s: Seq<u8>, i: int, m: int) -> Option<int>
    decreases 13 - m,
{
    if m < 1 || m > 12 {
        None
    } else if name_at(s, i, short_month_name(m)) {
        Some(m)
    } else {
        month_named(s, i, m + 1)
    }
}

/// Reads a three-letter day of the week at `i`, in any case; gives the end
/// position and the number of days after Monday.
pub open spec fn scan_short_weekday(s: Seq<u8>, i: int) -> Result<(int, int), ParseError> {
    if i + 3 > s.len() {
        Err(ParseError::TooShort)
    } else {
        match weekday_named(s, i, 0) {
            Some(w) => Ok((i + 3, w)),
            None => Err(ParseError::Invalid),
        }
    }
}

/// Reads a three-letter month at `i`, in any case; gives the end position
/// and the month (1 to 12).
pub open spec fn scan_short_month(s: Seq<u8>, i: int) -> Result<(int, int), ParseError> {
    if i + 3 > s.len() {
        Err(ParseError::TooShort)
    } else {
        match month_named(s, i, 1) {
            Some(m) => Ok((i + 3, m)),
            None => Err(ParseError::Invalid),
        }
    }
}

/// Whether `b` is an ASCII letter.
pub open spec fn is_alpha(b: u8) -> bool {
    (65 <= b <= 90) || (97 <= b <= 122)
}

/// End of the run of ASCII letters from `i`.
pub open spec fn alpha_end(s: Seq<u8>, i: int) -> int
    decreases s.len() - i,
{
    if 0 <= i < s.len() && is_alpha(s[i]) {
        alpha_end(s, i + 1)
    } else {
        i
    }
}

/// The offset of the zone named by the `n` letters at `i`, in any case: UT
/// and GMT are UTC, EST, EDT, CST, CDT, MST, MDT, PST and PDT the North
/// American zones; any other name leaves the offset unknown.
pub open spec fn zone_name_offset(s: Seq<u8>, i: int, n: int) -> Option<int> {
    if n == 2 && name_at(s, i, seq![117u8, 116u8]) {
        Some(0)
    } else if n != 3 {
        None
    } else if name_at(s, i, seq![103u8, 109u8, 116u8]) {
        Some(0)
    } else if name_at(s, i, seq![101u8, 115u8, 116u8]) {
        Some(-5 * 3600)
    } else if name_at(s, i, seq![101u8, 100u8, 116u8]) {
        Some(-4 * 3600)
    } else if name_at(s, i, seq![99u8, 115u8, 116u8]) {
        Some(-6 * 3600)
    } else if name_at(s, i, seq![99u8, 100u8, 116u8]) {
        Some(-5 * 3600)
    } else if name_at(s, i, seq![109u8, 115u8, 116u8]) {
        Some(-7 * 3600)
    } else if name_at(s, i, seq![109u8, 100u8, 116u8]) {
        Some(-6 * 3600)
    } else if name_at(s, i, seq![112u8, 115u8, 116u8]) {
        Some(-8 * 3600)
    } else if name_at(s, i, seq![112u8, 100u8, 116u8]) {
        Some(-7 * 3600)
    } else {
        None
    }
}

/// Reads an RFC 2822 zone at `i`: a run of letters naming a zone, or an
/// offset `+HHMM` or `-HHMM`. Gives the end position and the offset in
/// seconds, if known: `-0000` and unknown names leave it unknown.
pub open spec fn scan_zone_2822(s: Seq<u8>, i: int) -> Result<(int, Option<int>), ParseError> {
    let j = alpha_end(s, i);
    if j > i {
        Ok((j, zone_name_offset(s, i, j - i)))
    } else {
        match scan_offset(s, i, Colon::Absent) {
            Ok((k, v)) => if v == 0 && s[i] == 45 {
                Ok((k, None))
            } else {
                Ok((k, Some(v)))
            },
            Err(e) => Err(e),
        }
    }
}

/// Requires at least one byte of white space at `i` and skips all of it.
pub fn scan_space_at(s: &[u8], i: usize) -> (r: Result<usize, ParseError>)
    requires
        i <= s.len(),
    ensures
        match r {
            Ok(j) => scan_space(s@, i as int) == Ok::<int, ParseError>(j as int),
            Err(e) => scan_space(s@, i as int) == Err::<int, ParseError>(e),
        },
        r matches Ok(j) ==> i < j <= s.len(),
{
    let j = skip_spaces_at(s, i);
    if j > i {
        Ok(j)
    } else if i >= s.len() {
        Err(ParseError::TooShort)
    } else {
        Err(ParseError::Invalid)
    }
}

/// The lower-case form of an ASCII letter; other bytes as they are.
pub fn fold_case_of(b: u8) -> (r: u8)
    ensures
        r == fold_case(b),
{
    if 65 <= b && b <= 90 {
        b + 32
    } else {
        b
    }
}

/// Whether `name` is written at `i`, its letters in any case.
pub fn name_at_exec(s: &[u8], i: usize, name: &[u8]) -> (r: bool)
    requires
        i <= s.len(),
    ensures
        r == name_at(s@, i as int, name@),
{
    if s.len() - i < name.len() {
        return false;
    }
    let mut k: usize = 0;
    while k < name.len()
        invariant
            i + name@.len() <= s@.len(),
            s@.len() == s.len(),
            k <= name@.len(),
            forall|m: int| 0 <= m < k ==> fold_case(#[trigger] s@[i + m]) == fold_case(name@[m]),
        decreases name@.len() - k,
    {
        if fold_case_of(s[i + k]) != fold_case_of(name[k]) {
            proof {
                assert(fold_case(s@[i + k as int]) != fold_case(name@[k as int]));
            }
            return false;
        }
        k = k + 1;
    }
    true
}

/// Reads a three-letter day of the week at `i`, in any case.
pub fn scan_short_weekday_at(s: &[u8], i: usize) -> (r: Result<(usize, u32), ParseError>)
    requires
        i <= s.len(),
    ensures
        match r {
            Ok((j, w)) => scan_short_weekday(s@, i as int) == Ok::<(int, int), ParseError>((j as int, w as int)),
            Err(e) => scan_short_weekday(s@, i as int) == Err::<(int, int), ParseError>(e),
        },
        r matches Ok((j, w)) ==> j == i + 3 && j <= s.len() && w < 7,
{
    if s.len() - i < 3 {
        return Err(ParseError::TooShort);
    }
    let mut w: u32 = 0;
    while w < 7
        invariant
            i + 3 <= s@.len(),
            s@.len() == s.len(),
            w <= 7,
            weekday_named(s@, i as int, 0) == weekday_named(s@, i as int, w as int),
        decreases 7 - w,
    {
        let name = short_weekday_bytes(w);
        if name_at_exec(s, i, name.as_slice()) {
            return Ok((i + 3, w));
        }
        w = w + 1;
    }
    Err(ParseError::Invalid)
}

/// Reads a three-letter month at `i`, in any case.
pub fn scan_short_month_at(s: &[u8], i: usize) -> (r: Result<(usize, u32), ParseError>)
    requires
        i <= s.len(),
    ensures
        match r {
            Ok((j, m)) => scan_short_month(s@, i as int) == Ok::<(int, int), ParseError>((j as int, m as int)),
            Err(e) => scan_short_month(s@, i as int) == Err::<(int, int), ParseError>(e),
        },
        r matches Ok((j, m)) ==> j == i + 3 && j <= s.len() && 1 <= m <= 12,
{
    if s.len() - i < 3 {
        return Err(ParseError::TooShort);
    }
    let mut m: u32 = 1;
    while m <= 12
        invariant
            i + 3 <= s@.len(),
            s@.len() == s.len(),
            1 <= m <= 13,
            month_named(s@, i as int, 1) == month_named(s@, i as int, m as int),
        decreases 13 - m,
    {
        let name = short_month_bytes(m);
        if name_at_exec(s, i, name.as_slice()) {
            return Ok((i + 3, m));
        }
        m = m + 1;
    }
    Err(ParseError::Invalid)
}

/// End of the run of ASCII letters from `i`.
pub fn alpha_end_at(s: &[u8], i: usize) -> (r: usize)
    requires
        i <= s.len(),
    ensures
        r == alpha_end(s@, i as int),
        i <= r <= s.len(),
{
    let mut j = i;
    while j < s.len() && ((65 <= s[j] && s[j] <= 90) || (97 <= s[j] && s[j] <= 122))
        invariant
            i <= j <= s.len(),
            alpha_end(s@, i as int) == alpha_end(s@, j as int),
        decreases s.len() - j,
    {
        j = j + 1;
    }
    j
}

/// Whether the three letters `name` are written at `i`, in any case.
fn name3_at(s: &[u8], i: usize, name: [u8; 3]) -> (r: bool)
    requires
        i <= s.len(),
    ensures
        r == name_at(s@, i as int, name@),
{
    name_at_exec(s, i, name.as_slice())
}

/// The offset of the zone named by the `n` letters at `i`.
fn zone_name_offset_at(s: &[u8], i: usize, n: usize) -> (r: Option<i32>)
    requires
        i + n <= s.len(),
    ensures
        match r {
            Some(v) => zone_name_offset(s@, i as int, n as int) == Some(v as int),
            None => zone_name_offset(s@, i as int, n as int) == None::<int>,
        },
{
    let ut: [u8; 2] = [117, 116];
    let gmt: [u8; 3] = [103, 109, 116];
    let est: [u8; 3] = [101, 115, 116];
    let edt: [u8; 3] = [101, 100, 116];
    let cst: [u8; 3] = [99, 115, 116];
    let cdt: [u8; 3] = [99, 100, 116];
    let mst: [u8; 3] = [109, 115, 116];
    let mdt: [u8; 3] = [109, 100, 116];
    let pst: [u8; 3] = [112, 115, 116];
    let pdt: [u8; 3] = [112, 100, 116];
    proof {
        assert(ut@ =~= seq![117u8, 116u8]);
        assert(gmt@ =~= seq![103u8, 109u8, 116u8]);
        assert(est@ =~= seq![101u8, 115u8, 116u8]);
        assert(edt@ =~= seq![101u8, 100u8, 116u8]);
        assert(cst@ =~= seq![99u8, 115u8, 116u8]);
        assert(cdt@ =~= seq![99u8, 100u8, 116u8]);
        assert(mst@ =~= seq![109u8, 115u8, 116u8]);
        assert(mdt@ =~= seq![109u8, 100u8, 116u8]);
        assert(pst@ =~= seq![112u8, 115u8, 116u8]);
        assert(pdt@ =~= seq![112u8, 100u8, 116u8]);
    }
    if n == 2 && name_at_exec(s, i, ut.as_slice()) {
        Some(0)
    } else if n != 3 {
        None
    } else if name3_at(s, i, gmt) {
        Some(0)
    } else if name3_at(s, i, est) {
        Some(-5 * 3600)
    } else if name3_at(s, i, edt) {
        Some(-4 * 3600)
    } else if name3_at(s, i, cst) {
        Some(-6 * 3600)
    } else if name3_at(s, i, cdt) {
        Some(-5 * 3600)
    } else if name3_at(s, i, mst) {
        Some(-7 * 3600)
    } else if name3_at(s, i, mdt) {
        Some(-6 * 3600)
    } else if name3_at(s, i, pst) {
        Some(-8 * 3600)
    } else if name3_at(s, i, pdt) {
        Some(-7 * 3600)
    } else {
        None
    }
}

/// Reads an RFC 2822 zone at `i`.
pub fn scan_zone_2822_at(s: &[u8], i: usize) -> (r: Result<(usize, Option<i32>), ParseError>)
    requires
        i <= s.len(),
    ensures
        match r {
            Ok((j, Some(v))) => scan_zone_2822(s@, i as int) == Ok::<(int, Option<int>), ParseError>((j as int, Some(v as int))),
            Ok((j, None)) => scan_zone_2822(s@, i as int) == Ok::<(int, Option<int>), ParseError>((j as int, None)),
            Err(e) => scan_zone_2822(s@, i as int) == Err::<(int, Option<int>), ParseError>(e),
        },
        r matches Ok((j, _)) ==> i < j <= s.len(),
{
    let j = alpha_end_at(s, i);
    if j > i {
        return Ok((j, zone_name_offset_at(s, i, j - i)));
    }
    match scan_offset_at(s, i, Colon::Absent) {
        Ok((k, v)) => if v == 0 && s[i] == 45 {
            Ok((k, None))
        } else {
            Ok((k, Some(v)))
        },
        Err(e) => Err(e),
    }
}

/// What follows the first three letters in the full name of the day of the
/// week `w` days after Monday, in lower case.
pub open spec fn long_weekday_suffix(w: int) -> Seq<u8> {
    if w == 1 {
        seq![115u8, 100u8, 97u8, 121u8]
    } else if w == 2 {
        seq![110u8, 101u8, 115u8, 100u8, 97u8, 121u8]
    } else if w == 3 {
        seq![114u8, 115u8, 100u8, 97u8, 121u8]
    } else if w == 5 {
        seq![117u8, 114u8, 100u8, 97u8, 121u8]
    } else {
        seq![100u8, 97u8, 121u8]
    }
}

/// What follows the first three letters in the full name of month `m`, in
/// lower case.
pub open spec fn long_month_suffix(m: int) -> Seq<u8> {
    if m == 1 {
        seq![117u8, 97u8, 114u8, 121u8]
    } else if m == 2 {
        seq![114u8, 117u8, 97u8, 114u8, 121u8]
    } else if m == 3 {
        seq![99u8, 104u8]
    } else if m == 4 {
        seq![105u8, 108u8]
    } else if m == 5 {
        Seq::<u8>::empty()
    } else if m == 6 {
        seq![101u8]
    } else if m == 7 {
        seq![121u8]
    } else if m == 8 {
        seq![117u8, 115u8, 116u8]
    } else if m == 9 {
        seq![116u8, 101u8, 109u8, 98u8, 101u8, 114u8]
    } else if m == 10 {
        seq![111u8, 98u8, 101u8, 114u8]
    } else {
        seq![101u8, 109u8, 98u8, 101u8, 114u8]
    }
}

/// Reads a day of the week by its short or full name, in any case.
pub open spec fn scan_long_weekday(s: Seq<u8>, i: int) -> Result<(int, int), ParseError> {
    match scan_short_weekday(s, i) {
        Ok((j, w)) => if name_at(s, j, long_weekday_suffix(w)) {
            Ok((j + long_weekday_suffix(w).len(), w))
        } else {
            Ok((j, w))
        },
        Err(e) => Err(e),
    }
}

/// Reads a month by its short or full name, in any case.
pub open spec fn scan_long_month(s: Seq<u8>, i: int) -> Result<(int, int), ParseError> {
    match scan_short_month(s, i) {
        Ok((j, m)) => if name_at(s, j, long_month_suffix(m)) {
            Ok((j + long_month_suffix(m).len(), m))
        } else {
            Ok((j, m))
        },
        Err(e) => Err(e),
    }
}

/// Reads `am` or `pm`, in any case; gives whether it is `pm`.
pub open spec fn scan_ampm(s: Seq<u8>, i: int) -> Result<(int, bool), ParseError> {
    if i + 2 > s.len() {
        Err(ParseError::TooShort)
    } else if fold_case(s[i]) == 97 && fold_case(s[i + 1]) == 109 {
        Ok((i + 2, false))
    } else if fold_case(s[i]) == 112 && fold_case(s[i + 1]) == 109 {
        Ok((i + 2, true))
    } else {
        Err(ParseError::Invalid)
    }
}

/// What follows the first three letters in the full name of a day of the
/// week.
pub fn long_weekday_suffix_bytes(w: u32) -> (r: Vec<u8>)
    requires
        w < 7,
    ensures
        r@ == long_weekday_suffix(w as int),
{
    let v: Vec<u8> = if w == 1 {
        vec![115u8, 100u8, 97u8, 121u8]
    } else if w == 2 {
        vec![110u8, 101u8, 115u8, 100u8, 97u8, 121u8]
    } else if w == 3 {
        vec![114u8, 115u8, 100u8, 97u8, 121u8]
    } else if w == 5 {
        vec![117u8, 114u8, 100u8, 97u8, 121u8]
    } else {
        vec![100u8, 97u8, 121u8]
    };
    proof {
        assert(v@ =~= long_weekday_suffix(w as int));
    }
    v
}

/// What follows the first three letters in the full name of a month.
pub fn long_month_suffix_bytes(m: u32) -> (r: Vec<u8>)
    requires
        1 <= m <= 12,
    ensures
        r@ == long_month_suffix(m as int),
{
    let v: Vec<u8> = if m == 1 {
        vec![117u8, 97u8, 114u8, 121u8]
    } else if m == 2 {
        vec![114u8, 117u8, 97u8, 114u8, 121u8]
    } else if m == 3 {
        vec![99u8, 104u8]
    } else if m == 4 {
        vec![105u8, 108u8]
    } else if m == 5 {
        Vec::new()
    } else if m == 6 {
        vec![101u8]
    } else if m == 7 {
        vec![121u8]
    } else if m == 8 {
        vec![117u8, 115u8, 116u8]
    } else if m == 9 {
        vec![116u8, 101u8, 109u8, 98u8, 101u8, 114u8]
    } else if m == 10 {
        vec![111u8, 98u8, 101u8, 114u8]
    } else {
        vec![101u8, 109u8, 98u8, 101u8, 114u8]
    };
    proof {
        assert(v@ =~= long_month_suffix(m as int));
    }
    v
}

/// Reads a day of the week by its short or full name, in any case.
pub fn scan_long_weekday_at(s: &[u8], i: usize) -> (r: Result<(usize, u32), ParseError>)
    requires
        i <= s.len(),
    ensures
        match r {
            Ok((j, w)) => scan_long_weekday(s@, i as int) == Ok::<(int, int), ParseError>((j as int, w as int)),
            Err(e) => scan_long_weekday(s@, i as int) == Err::<(int, int), ParseError>(e),
        },
        r matches Ok((j, w)) ==> i < j <= s.len() && w < 7,
{
    match scan_short_weekday_at(s, i) {
        Ok((j, w)) => {
            let suffix = long_weekday_suffix_bytes(w);
            if name_at_exec(s, j, suffix.as_slice()) {
                Ok((j + suffix.len(), w))
            } else {
                Ok((j, w))
            }
        },
        Err(e) => Err(e),
    }
}

/// Reads a month by its short or full name, in any case.
pub fn scan_long_month_at(s: &[u8], i: usize) -> (r: Result<(usize, u32), ParseError>)
    requires
        i <= s.len(),
    ensures
        match r {
            Ok((j, m)) => scan_long_month(s@, i as int) == Ok::<(int, int), ParseError>((j as int, m as int)),
            Err(e) => scan_long_month(s@, i as int) == Err::<(int, int), ParseError>(e),
        },
        r matches Ok((j, m)) ==> i < j <= s.len() && 1 <= m <= 12,
{
    match scan_short_month_at(s, i) {
        Ok((j, m)) => {
            let suffix = long_month_suffix_bytes(m);
            if name_at_exec(s, j, suffix.as_slice()) {
                Ok((j + suffix.len(), m))
            } else {
                Ok((j, m))
            }
        },
        Err(e) => Err(e),
    }
}

/// Reads `am` or `pm`, in any case.
pub fn scan_ampm_at(s: &[u8], i: usize) -> (r: Result<(usize, bool), ParseError>)
    requires
        i <= s.len(),
    ensures
        match r {
            Ok((j, pm)) => scan_ampm(s@, i as int) == Ok::<(int, bool), ParseError>((j as int, pm)),
            Err(e) => scan_ampm(s@, i as int) == Err::<(int, bool), ParseError>(e),
        },
        r matches Ok((j, _)) ==> j == i + 2 && j <= s.len(),
{
    if s.len() - i < 2 {
        return Err(ParseError::TooShort);
    }
    let a = fold_case_of(s[i]);
    let b = fold_case_of(s[i + 1]);
    if a == 97 && b == 109 {
        Ok((i + 2, false))
    } else if a == 112 && b == 109 {
        Ok((i + 2, true))
    } else {
        Err(ParseError::Invalid)
    }
}

} // verus!
