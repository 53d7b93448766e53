//! Offsets from UTC: the UTC zone itself and fixed offsets.
use vstd::prelude::*;
use crate::text::{fixed_width, push_fixed_width, is_ascii_bytes, lemma_fixed_width};
use crate::naive::{NaiveDate, date_valid};
use crate::datetime::Date;

verus! {

/// `'+'` for a non-negative offset, `'-'` for a negative one.
pub open spec fn sign_byte(fix: int) -> u8 {
    if fix < 0 {
        45u8
    } else {
        43u8
    }
}

/// Magnitude of an integer.
pub open spec fn abs(x: int) -> int {
    if x < 0 {
        -x
    } else {
        x
    }
}

/// `'-'` for an offset at least a minute behind UTC, `'+'` otherwise: the
/// sign of the whole minutes of the offset.
pub open spec fn minutes_sign_byte(fix: int) -> u8 {
    if fix <= -60 {
        45u8
    } else {
        43u8
    }
}

/// The magnitude of an offset of `fix` seconds as two-digit hours and
/// two-digit minutes, with a colon between them when asked; seconds are
/// left out.
pub open spec fn hhmm(fix: int, colon: bool) -> Seq<u8> {
    fixed_width((abs(fix) / 3600) as nat, 2) + (if colon {
        seq![58u8]
    } else {
        Seq::<u8>::empty()
    }) + fixed_width((abs(fix) / 60 % 60) as nat, 2)
}

/// An offset of `fix` seconds as the sign of its whole minutes, hours and
/// minutes, such as `+05:30` or `-0800`.
pub open spec fn offset_hhmm(fix: int, colon: bool) -> Seq<u8> {
    seq![minutes_sign_byte(fix)] + hhmm(fix, colon)
}

/// The text of a fixed offset: its sign, `HH:MM`, and `:SS` when the offset
/// is not a whole number of minutes.
pub open spec fn fixed_offset_text(fix: int) -> Seq<u8> {
    seq![sign_byte(fix)] + hhmm(fix, true) + (if abs(fix) % 60 == 0 {
        Seq::<u8>::empty()
    } else {
        seq![58u8] + fixed_width((abs(fix) % 60) as nat, 2)
    })
}

/// The text of an offset less than a day either way is a sign, `-` exactly
/// when the offset is at least a minute behind UTC, then two digits of
/// hours, a colon, and two digits of minutes of its magnitude.
pub proof fn lemma_offset_text(fix: int)
    requires
        -86400 < fix < 86400,
    ensures
        ({
            let t = offset_hhmm(fix, true);
            let a = abs(fix);
            &&& t.len() == 6
            &&& (t[0] == 45u8 <==> fix <= -60)
            &&& (t[0] == 43u8 <==> fix > -60)
            &&& 48 <= t[1] <= 57 && 48 <= t[2] <= 57 && 48 <= t[4] <= 57 && 48 <= t[5] <= 57
            &&& (t[1] - 48) * 10 + (t[2] - 48) == a / 3600
            &&& t[3] == 58u8
            &&& (t[4] - 48) * 10 + (t[5] - 48) == a / 60 % 60
        }),
{
    let a = abs(fix);
    crate::roundtrip::lemma_two_digits((a / 3600) as nat);
    crate::roundtrip::lemma_two_digits((a / 60 % 60) as nat);
    let t = offset_hhmm(fix, true);
    assert(t =~= seq![minutes_sign_byte(fix)] + fixed_width((a / 3600) as nat, 2) + seq![58u8]
        + fixed_width((a / 60 % 60) as nat, 2));
}

/// Whether an offset in seconds is less than a day either way.
pub open spec fn offset_in_range(fix: int) -> bool {
    -86400 < fix < 86400
}

/// Appends the hours and minutes of an offset.
fn push_hhmm(out: &mut Vec<u8>, fix: i32, colon: bool)
    requires
        offset_in_range(fix as int),
    ensures
        final(out)@ == old(out)@ + hhmm(fix as int, colon),
        is_ascii_bytes(old(out)@) ==> is_ascii_bytes(final(out)@),
{
    let a: u32 = if fix < 0 {
        (-fix) as u32
    } else {
        fix as u32
    };
    push_fixed_width(out, (a / 3600) as u64, 2);
    if colon {
        out.push(58u8);
    }
    push_fixed_width(out, (a / 60 % 60) as u64, 2);
    proof {
        let h = fixed_width((abs(fix as int) / 3600) as nat, 2);
        let c = if colon {
            seq![58u8]
        } else {
            Seq::<u8>::empty()
        };
        let m = fixed_width((abs(fix as int) / 60 % 60) as nat, 2);
        assert(final(out)@ =~= old(out)@ + (h + c + m));
    }
}

/// Appends an offset as the sign of its whole minutes, hours and minutes.
pub fn push_offset_hhmm(out: &mut Vec<u8>, fix: i32, colon: bool)
    requires
        offset_in_range(fix as int),
    ensures
        final(out)@ == old(out)@ + offset_hhmm(fix as int, colon),
        is_ascii_bytes(old(out)@) ==> is_ascii_bytes(final(out)@),
{
    out.push(if fix <= -60 {
        45u8
    } else {
        43u8
    });
    let ghost mid = out@;
    push_hhmm(out, fix, colon);
    proof {
        assert(final(out)@ =~= old(out)@ + offset_hhmm(fix as int, colon));
    }
}

/// The offset of a time zone from UTC, and how it is written.
pub trait Offset: Sized + Copy {
    /// Seconds by which local time is ahead of UTC.
    spec fn fix_spec(&self) -> int;

    /// How the offset is written after a date and time separated by a space.
    spec fn display_spec(&self) -> Seq<u8>;

    /// How the offset is written right after an ISO 8601 date and time.
    spec fn debug_spec(&self) -> Seq<u8>;

    /// Seconds by which local time is ahead of UTC, less than a day either way.
    fn local_minus_utc(&self) -> (r: i32)
        ensures
            r == self.fix_spec(),
            offset_in_range(r as int),
    ;

    /// The same offset as a `FixedOffset`.
    fn fix(&self) -> (r: FixedOffset)
        ensures
            r@ == self.fix_spec(),
    ;

    /// The text of `display_spec`.
    fn display_bytes(&self) -> (r: Vec<u8>)
        ensures
            r@ == self.display_spec(),
            is_ascii_bytes(r@),
    ;

    /// The text of `debug_spec`.
    fn debug_bytes(&self) -> (r: Vec<u8>)
        ensures
            r@ == self.debug_spec(),
            is_ascii_bytes(r@),
    ;

}

/// The UTC time zone.
#[derive(Clone, Copy, Debug, PartialEq, Eq, Structural)]
pub struct UTC;

impl UTC {
    /// The date `year-month-day` in this time zone; the date must exist and
    /// be held.
    pub fn ymd(&self, year: i32, month: u32, day: u32) -> (r: Date<UTC>)
        requires
            date_valid((year as int, month as int, day as int)),
        ensures
            r.local_date()@ == (year as int, month as int, day as int),
            r.offset_value() == *self,
    {
        Date::from_local(NaiveDate::from_ymd(year, month, day), *self)
    }

    /// The date `year-month-day` in this time zone, if it exists and is held.
    pub fn ymd_opt(&self, year: i32, month: u32, day: u32) -> (r: Option<Date<UTC>>)
        ensures
            r is Some <==> date_valid((year as int, month as int, day as int)),
            r matches Some(v) ==> v.local_date()@ == (year as int, month as int, day as int)
                && v.offset_value() == *self,
    {
        match NaiveDate::from_ymd_opt(year, month, day) {
            Some(d) => Some(Date::from_local(d, *self)),
            None => None,
        }
    }
}

impl Offset for UTC {
    open spec fn fix_spec(&self) -> int {
        0
    }

    open spec fn display_spec(&self) -> Seq<u8> {
        seq![85u8, 84u8, 67u8]
    }

    open spec fn debug_spec(&self) -> Seq<u8> {
        seq![90u8]
    }

    fn local_minus_utc(&self) -> (r: i32) {
        0
    }

    fn fix(&self) -> (r: FixedOffset) {
        FixedOffset::east(0)
    }

    fn display_bytes(&self) -> (r: Vec<u8>) {
        let r = vec![85u8, 84u8, 67u8];
        proof {
            assert(r@ =~= seq![85u8, 84u8, 67u8]);
        }
        r
    }

    fn debug_bytes(&self) -> (r: Vec<u8>) {
        let r = vec![90u8];
        proof {
            assert(r@ =~= seq![90u8]);
        }
        r
    }
}

/// A time zone at a fixed offset from UTC, less than a day either way.
#[derive(Clone, Copy, Debug, PartialEq, Eq, Structural)]
pub struct FixedOffset {
    local_minus_utc: i32,
}

impl View for FixedOffset {
    type V = int;

    closed spec fn view(&self) -> int {
        self.local_minus_utc as int
    }
}

impl FixedOffset {
    #[verifier::type_invariant]
    pub closed spec fn inv(self) -> bool {
        offset_in_range(self@)
    }

    /// What every `FixedOffset` satisfies.
    pub proof fn lemma_inv(self)
        requires
            self.inv(),
        ensures
            offset_in_range(self@),
    {
    }

    /// The zone `secs` seconds east of UTC (ahead of it), which must be less
    /// than a day either way.
    pub fn east(secs: i32) -> (r: FixedOffset)
        requires
            offset_in_range(secs as int),
        ensures
            r@ == secs,
    {
        FixedOffset { local_minus_utc: secs }
    }

    /// The zone `secs` seconds east of UTC, if less than a day either way.
    pub fn east_opt(secs: i32) -> (r: Option<FixedOffset>)
        ensures
            r is Some <==> offset_in_range(secs as int),
            r matches Some(o) ==> o@ == secs,
    {
        if -86400 < secs && secs < 86400 {
            Some(FixedOffset { local_minus_utc: secs })
        } else {
            None
        }
    }

    /// The zone `secs` seconds west of UTC (behind it), which must be less
    /// than a day either way.
    pub fn west(secs: i32) -> (r: FixedOffset)
        requires
            offset_in_range(secs as int),
        ensures
            r@ == -secs,
    {
        FixedOffset { local_minus_utc: -secs }
    }

    /// The zone `secs` seconds west of UTC, if less than a day either way.
    pub fn west_opt(secs: i32) -> (r: Option<FixedOffset>)
        ensures
            r is Some <==> offset_in_range(secs as int),
            r matches Some(o) ==> o@ == -secs,
    {
        if -86400 < secs && secs < 86400 {
            Some(FixedOffset { local_minus_utc: -secs })
        } else {
            None
        }
    }
}

impl FixedOffset {
    /// The date `year-month-day` in this time zone; the date must exist and
    /// be held.
    pub fn ymd(&self, year: i32, month: u32, day: u32) -> (r: Date<FixedOffset>)
        requires
            date_valid((year as int, month as int, day as int)),
        ensures
            r.local_date()@ == (year as int, month as int, day as int),
            r.offset_value() == *self,
    {
        Date::from_local(NaiveDate::from_ymd(year, month, day), *self)
    }

    /// The date `year-month-day` in this time zone, if it exists and is held.
    pub fn ymd_opt(&self, year: i32, month: u32, day: u32) -> (r: Option<Date<FixedOffset>>)
        ensures
            r is Some <==> date_valid((year as int, month as int, day as int)),
            r matches Some(v) ==> v.local_date()@ == (year as int, month as int, day as int)
                && v.offset_value() == *self,
    {
        match NaiveDate::from_ymd_opt(year, month, day) {
            Some(d) => Some(Date::from_local(d, *self)),
            None => None,
        }
    }
}

impl Offset for FixedOffset {
    open spec fn fix_spec(&self) -> int {
        self@
    }

    open spec fn display_spec(&self) -> Seq<u8> {
        fixed_offset_text(self.fix_spec())
    }

    open spec fn debug_spec(&self) -> Seq<u8> {
        fixed_offset_text(self.fix_spec())
    }

    fn local_minus_utc(&self) -> (r: i32) {
        proof {
            use_type_invariant(self);
        }
        self.local_minus_utc
    }

    fn fix(&self) -> (r: FixedOffset) {
        *self
    }

    fn display_bytes(&self) -> (r: Vec<u8>) {
        self.debug_bytes()
    }

    fn debug_bytes(&self) -> (r: Vec<u8>) {
        let fix = self.local_minus_utc();
        let mut out: Vec<u8> = Vec::new();
        out.push(if fix < 0 {
            45u8
        } else {
            43u8
        });
        push_hhmm(&mut out, fix, true);
        let a: u32 = if fix < 0 {
            (-fix) as u32
        } else {
            fix as u32
        };
        if a % 60 != 0 {
            out.push(58u8);
            push_fixed_width(&mut out, (a % 60) as u64, 2);
        }
        proof {
            let f = fix as int;
            lemma_fixed_width((abs(f) / 3600) as nat, 2);
            lemma_fixed_width((abs(f) / 60 % 60) as nat, 2);
            lemma_fixed_width((abs(f) % 60) as nat, 2);
            assert(out@ =~= fixed_offset_text(f));
            assert(is_ascii_bytes(out@));
        }
        out
    }
}

} // verus!
