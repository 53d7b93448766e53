//! Formatting items, the pieces a date-time text is read from or written
//! to, and how a `strftime`-style format string describes a list of them.
use vstd::prelude::*;
use vstd::string::StringSliceAdditionalSpecFns;
use vstd::utf8::{
    encode_utf8, valid_utf8, is_char_boundary, pop_first_scalar,
    length_of_first_scalar, is_leading_byte_width_1,
};
use crate::parse::Numeric;
use crate::scan::{is_space, skip_spaces, skip_spaces_at};
use crate::text::{string_from_utf8, lemma_ascii_utf8};

verus! {

/// How a number is padded to its width.
#[derive(Clone, Copy, Debug, PartialEq, Eq, Structural)]
pub enum Pad {
    /// Not padded.
    Bare,
    /// Padded with zeros.
    Zero,
    /// Padded with spaces.
    Space,
}

/// Pieces of text whose form is fixed.
#[derive(Clone, Copy, Debug, PartialEq, Eq, Structural)]
pub enum Fixed {
    /// `Jan` to `Dec`, read in any case.
    ShortMonthName,
    /// `January` to `December`; the short name is also read, in any case.
    LongMonthName,
    /// `Mon` to `Sun`, read in any case.
    ShortWeekdayName,
    /// `Monday` to `Sunday`; the short name is also read, in any case.
    LongWeekdayName,
    /// `am` or `pm`, read in any case.
    LowerAmPm,
    /// `AM` or `PM`, read in any case.
    UpperAmPm,
    /// A fraction of a second: a dot and three, six or nine digits, or
    /// nothing when it is zero.
    Nanosecond,
    /// A dot and three digits of the fraction of a second.
    Nanosecond3,
    /// A dot and six digits of the fraction of a second.
    Nanosecond6,
    /// A dot and nine digits of the fraction of a second.
    Nanosecond9,
    /// The name of the offset, as its `Display` form shows it.
    TimezoneName,
    /// An offset `+HH:MM`.
    TimezoneOffsetColon,
    /// An offset `+HH:MM`, or `Z` for UTC.
    TimezoneOffsetColonZ,
    /// An offset `+HHMM`.
    TimezoneOffset,
    /// An offset `+HHMM`, or `Z` for UTC.
    TimezoneOffsetZ,
    /// A whole RFC 2822 date-time.
    RFC2822,
    /// A whole RFC 3339 date-time.
    RFC3339,
}

/// A piece of a date-time text.
#[derive(Clone, Debug, PartialEq, Eq)]
pub enum Item {
    /// Text that must appear as it is.
    Literal(String),
    /// White space: any amount is read, this text is written.
    Space(String),
    /// A number, padded as said when written.
    Numeric(Numeric, Pad),
    /// A piece of fixed form.
    Fixed(Fixed),
    /// A malformed part of a format string.
    Error,
}

/// What an item stands for, its text given by its UTF-8 bytes.
pub enum ItemView {
    Literal(Seq<u8>),
    Space(Seq<u8>),
    Numeric(Numeric, Pad),
    Fixed(Fixed),
    Error,
}

impl View for Item {
    type V = ItemView;

    open spec fn view(&self) -> ItemView {
        match self {
            Item::Literal(s) => ItemView::Literal(encode_utf8(s@)),
            Item::Space(s) => ItemView::Space(encode_utf8(s@)),
            Item::Numeric(k, p) => ItemView::Numeric(*k, *p),
            Item::Fixed(f) => ItemView::Fixed(*f),
            Item::Error => ItemView::Error,
        }
    }
}

/// The views of a list of items.
pub open spec fn items_view(items: Seq<Item>) -> Seq<ItemView> {
    items.map_values(|it: Item| it@)
}

/// A number padded with zeros.
pub open spec fn num0(k: Numeric) -> ItemView {
    ItemView::Numeric(k, Pad::Zero)
}

/// The one-byte literal `b`.
pub open spec fn lit1(b: u8) -> ItemView {
    ItemView::Literal(seq![b])
}

/// The items of the specifier letter at `k` of the format `f` (after `%`
/// and any padding flag), and the position after it. The letters are:
/// `Y` year, `C` year divided by 100, `y` year modulo 100, `m` month, `d`
/// day, `e` space-padded day, `j` day of the year, `H` hour, `k`
/// space-padded hour, `I` hour on a 12-hour clock, `l` the same
/// space-padded, `M` minute, `S` second, `f` nanoseconds, `u` day of the
/// week from Monday as 1, `w` day of the week from Sunday as 0, `U` and
/// `W` week of the year with weeks starting on Sunday and on Monday, `G`
/// ISO 8601 year, `g` the same modulo 100, `V` ISO 8601 week, `F` for
/// `%Y-%m-%d`, `D` and `x` for `%m/%d/%y`, `v` for `%e-%b-%Y`, `R` for
/// `%H:%M`, `T` and `X` for `%H:%M:%S`, `r` for `%I:%M:%S %p`, `c` for
/// `%a %b %e %H:%M:%S %Y`, `a` and `A` short and full weekday name, `b`
/// and `h` short month name, `B` full month name, `p` and `P` `AM`/`PM` in
/// upper and lower case, `Z` offset name, `z` offset `+HHMM`, `:z` offset
/// `+HH:MM`, `.f` fraction, `.3f`, `.6f` and `.9f` fraction of fixed width,
/// `+` RFC 3339, `n` newline, `t` tab, and `%` itself. Anything else is an
/// error.
pub open spec fn letter_items(f: Seq<u8>, k: int) -> (Seq<ItemView>, int) {
    if k < 0 || k >= f.len() {
        (seq![ItemView::Error], f.len() as int)
    } else {
        let c = f[k];
        if c == 89 {
            (seq![num0(Numeric::Year)], k + 1)
        } else if c == 109 {
            (seq![num0(Numeric::Month)], k + 1)
        } else if c == 100 {
            (seq![num0(Numeric::Day)], k + 1)
        } else if c == 101 {
            (seq![ItemView::Numeric(Numeric::Day, Pad::Space)], k + 1)
        } else if c == 72 {
            (seq![num0(Numeric::Hour)], k + 1)
        } else if c == 107 {
            (seq![ItemView::Numeric(Numeric::Hour, Pad::Space)], k + 1)
        } else if c == 77 {
            (seq![num0(Numeric::Minute)], k + 1)
        } else if c == 83 {
            (seq![num0(Numeric::Second)], k + 1)
        } else if c == 102 {
            (seq![num0(Numeric::Nanosecond)], k + 1)
        } else if c == 70 {
            (
                seq![
                    num0(Numeric::Year),
                    lit1(45),
                    num0(Numeric::Month),
                    lit1(45),
                    num0(Numeric::Day),
                ],
                k + 1,
            )
        } else if c == 82 {
            (seq![num0(Numeric::Hour), lit1(58), num0(Numeric::Minute)], k + 1)
        } else if c == 84 || c == 88 {
            (
                seq![
                    num0(Numeric::Hour),
                    lit1(58),
                    num0(Numeric::Minute),
                    lit1(58),
                    num0(Numeric::Second),
                ],
                k + 1,
            )
        } else if c == 97 {
            (seq![ItemView::Fixed(Fixed::ShortWeekdayName)], k + 1)
        } else if c == 98 || c == 104 {
            (seq![ItemView::Fixed(Fixed::ShortMonthName)], k + 1)
        } else if c == 90 {
            (seq![ItemView::Fixed(Fixed::TimezoneName)], k + 1)
        } else if c == 122 {
            (seq![ItemView::Fixed(Fixed::TimezoneOffset)], k + 1)
        } else if c == 43 {
            (seq![ItemView::Fixed(Fixed::RFC3339)], k + 1)
        } else if c == 110 {
            (seq![ItemView::Space(seq![10u8])], k + 1)
        } else if c == 116 {
            (seq![ItemView::Space(seq![9u8])], k + 1)
        } else if c == 37 {
            (seq![lit1(37)], k + 1)
        } else if c == 65 {
            (seq![ItemView::Fixed(Fixed::LongWeekdayName)], k + 1)
        } else if c == 66 {
            (seq![ItemView::Fixed(Fixed::LongMonthName)], k + 1)
        } else if c == 67 {
            (seq![num0(Numeric::YearDiv100)], k + 1)
        } else if c == 68 || c == 120 {
            (
                seq![
                    num0(Numeric::Month),
                    lit1(47),
                    num0(Numeric::Day),
                    lit1(47),
                    num0(Numeric::YearMod100),
                ],
                k + 1,
            )
        } else if c == 73 {
            (seq![num0(Numeric::Hour12)], k + 1)
        } else if c == 80 {
            (seq![ItemView::Fixed(Fixed::LowerAmPm)], k + 1)
        } else if c == 99 {
            (
                seq![
                    ItemView::Fixed(Fixed::ShortWeekdayName),
                    ItemView::Space(seq![32u8]),
                    ItemView::Fixed(Fixed::ShortMonthName),
                    ItemView::Space(seq![32u8]),
                    ItemView::Numeric(Numeric::Day, Pad::Space),
                    ItemView::Space(seq![32u8]),
                    num0(Numeric::Hour),
                    lit1(58),
                    num0(Numeric::Minute),
                    lit1(58),
                    num0(Numeric::Second),
                    ItemView::Space(seq![32u8]),
                    num0(Numeric::Year),
                ],
                k + 1,
            )
        } else if c == 106 {
            (seq![num0(Numeric::Ordinal)], k + 1)
        } else if c == 108 {
            (seq![ItemView::Numeric(Numeric::Hour12, Pad::Space)], k + 1)
        } else if c == 112 {
            (seq![ItemView::Fixed(Fixed::UpperAmPm)], k + 1)
        } else if c == 114 {
            (
                seq![
                    num0(Numeric::Hour12),
                    lit1(58),
                    num0(Numeric::Minute),
                    lit1(58),
                    num0(Numeric::Second),
                    ItemView::Space(seq![32u8]),
                    ItemView::Fixed(Fixed::UpperAmPm),
                ],
                k + 1,
            )
        } else if c == 117 {
            (seq![ItemView::Numeric(Numeric::WeekdayFromMon, Pad::Bare)], k + 1)
        } else if c == 118 {
            (
                seq![
                    ItemView::Numeric(Numeric::Day, Pad::Space),
                    lit1(45),
                    ItemView::Fixed(Fixed::ShortMonthName),
                    lit1(45),
                    num0(Numeric::Year),
                ],
                k + 1,
            )
        } else if c == 119 {
            (seq![ItemView::Numeric(Numeric::NumDaysFromSun, Pad::Bare)], k + 1)
        } else if c == 121 {
            (seq![num0(Numeric::YearMod100)], k + 1)
        } else if c == 71 {
            (seq![num0(Numeric::IsoYear)], k + 1)
        } else if c == 103 {
            (seq![num0(Numeric::IsoYearMod100)], k + 1)
        } else if c == 86 {
            (seq![num0(Numeric::IsoWeek)], k + 1)
        } else if c == 85 {
            (seq![num0(Numeric::WeekFromSun)], k + 1)
        } else if c == 87 {
            (seq![num0(Numeric::WeekFromMon)], k + 1)
        } else if c == 58 && k + 1 < f.len() && f[k + 1] == 122 {
            (seq![ItemView::Fixed(Fixed::TimezoneOffsetColon)], k + 2)
        } else if c == 46 && k + 1 < f.len() && f[k + 1] == 102 {
            (seq![ItemView::Fixed(Fixed::Nanosecond)], k + 2)
        } else if c == 46 && k + 2 < f.len() && f[k + 2] == 102 && f[k + 1] == 51 {
            (seq![ItemView::Fixed(Fixed::Nanosecond3)], k + 3)
        } else if c == 46 && k + 2 < f.len() && f[k + 2] == 102 && f[k + 1] == 54 {
            (seq![ItemView::Fixed(Fixed::Nanosecond6)], k + 3)
        } else if c == 46 && k + 2 < f.len() && f[k + 2] == 102 && f[k + 1] == 57 {
            (seq![ItemView::Fixed(Fixed::Nanosecond9)], k + 3)
        } else {
            (seq![ItemView::Error], f.len() as int)
        }
    }
}

/// The padding a flag byte asks for: `-` none, `0` zeros, `_` spaces.
pub open spec fn pad_flag(c: u8) -> Option<Pad> {
    if c == 45 {
        Some(Pad::Bare)
    } else if c == 48 {
        Some(Pad::Zero)
    } else if c == 95 {
        Some(Pad::Space)
    } else {
        None
    }
}

/// The items of the specifier that starts at `i`, just after a `%`, and the
/// position after it. A padding flag applies only to a specifier of one
/// number; on any other it is an error.
pub open spec fn specifier_items(f: Seq<u8>, i: int) -> (Seq<ItemView>, int) {
    if i < 0 || i >= f.len() {
        (seq![ItemView::Error], f.len() as int)
    } else {
        match pad_flag(f[i]) {
            None => letter_items(f, i),
            Some(p) => {
                let (items, j) = letter_items(f, i + 1);
                if items.len() == 1 && items[0] is Numeric {
                    (seq![ItemView::Numeric(items[0]->Numeric_0, p)], j)
                } else {
                    (seq![ItemView::Error], f.len() as int)
                }
            },
        }
    }
}

/// End of the run of text from `i` that is neither white space nor `%`.
pub open spec fn literal_end(f: Seq<u8>, i: int) -> int
    decreases f.len() - i,
{
    if 0 <= i < f.len() && f[i] != 37 && !is_space(f[i]) {
        literal_end(f, i + 1)
    } else {
        i
    }
}

/// Both runs end after they start when they start on a byte of their kind.
pub proof fn lemma_run_ends(f: Seq<u8>, i: int)
    requires
        0 <= i <= f.len(),
    ensures
        i <= literal_end(f, i) <= f.len(),
        i <= skip_spaces(f, i) <= f.len(),
        i < f.len() && f[i] != 37 && !is_space(f[i]) ==> i < literal_end(f, i),
        i < f.len() && is_space(f[i]) ==> i < skip_spaces(f, i),
    decreases f.len() - i,
{
    if i < f.len() {
        lemma_run_ends(f, i + 1);
    }
}

/// The items the format `f` describes from position `i` on, up to and
/// including the first error: white space gives a space item, other text
/// up to a `%` or white space a literal, and `%` a specifier.
pub open spec fn strftime_from(f: Seq<u8>, i: int) -> Seq<ItemView>
    decreases f.len() - i,
{
    if i < 0 || i >= f.len() {
        Seq::empty()
    } else if f[i] == 37 {
        let (items, j) = specifier_items(f, i + 1);
        if items[0] is Error {
            items
        } else {
            items + strftime_from(f, j)
        }
    } else {
        proof {
            lemma_run_ends(f, i);
        }
        if is_space(f[i]) {
            let j = skip_spaces(f, i);
            seq![ItemView::Space(f.subrange(i, j))] + strftime_from(f, j)
        } else {
            let j = literal_end(f, i);
            seq![ItemView::Literal(f.subrange(i, j))] + strftime_from(f, j)
        }
    }
}

/// The items a format string describes.
pub open spec fn strftime_spec(f: Seq<u8>) -> Seq<ItemView> {
    strftime_from(f, 0)
}

/// In valid UTF-8, the position after an ASCII byte starts a character.
pub proof fn lemma_boundary_after_ascii(bytes: Seq<u8>, k: int)
    requires
        valid_utf8(bytes),
        0 <= k < bytes.len(),
        bytes[k] < 128,
    ensures
        is_char_boundary(bytes, k + 1),
    decreases bytes.len(),
{
    vstd::utf8::is_char_boundary_iff_not_is_continuation_byte(bytes, k);
    let len = length_of_first_scalar(bytes);
    let rest = pop_first_scalar(bytes);
    if k == 0 {
        assert(is_leading_byte_width_1(bytes[0]));
        assert(len == 1);
        assert(is_char_boundary(rest, 0));
    } else {
        assert(is_char_boundary(rest, k - len));
        if k - len < 0 {
            assert(false);
        }
        assert(rest[k - len] == bytes[k]);
        lemma_boundary_after_ascii(rest, k - len);
    }
}

/// Whether position `i` of `f` surely starts a character: it is the start,
/// the end, an ASCII byte, or just after one.
pub open spec fn ascii_edge(f: Seq<u8>, i: int) -> bool {
    ||| i == 0
    ||| i == f.len()
    ||| (0 <= i < f.len() && f[i] < 128)
    ||| (0 < i <= f.len() && f[i - 1] < 128)
}

/// Positions at ASCII edges start characters.
pub proof fn lemma_ascii_edge(f: Seq<u8>, i: int)
    requires
        valid_utf8(f),
        0 <= i <= f.len(),
        ascii_edge(f, i),
    ensures
        is_char_boundary(f, i),
{
    vstd::utf8::is_char_boundary_start_end_of_seq(f);
    if 0 < i < f.len() && f[i] < 128 {
        vstd::utf8::is_char_boundary_iff_not_is_continuation_byte(f, i);
    } else if 0 < i < f.len() {
        lemma_boundary_after_ascii(f, i - 1);
    }
}

/// The part of `fmt` from byte `i` to byte `j`, as a `String`.
fn piece_of(fmt: &str, i: usize, j: usize) -> (r: String)
    requires
        i <= j <= fmt.spec_bytes().len(),
        ascii_edge(fmt.spec_bytes(), i as int),
        ascii_edge(fmt.spec_bytes(), j as int),
    ensures
        encode_utf8(r@) == fmt.spec_bytes().subrange(i as int, j as int),
{
    let ghost f = fmt.spec_bytes();
    proof {
        vstd::utf8::encode_utf8_valid_utf8(fmt@);
        lemma_ascii_edge(f, i as int);
        vstd::utf8::valid_utf8_split(f, i as int);
    }
    let (_, tail) = fmt.split_at(i);
    proof {
        let t = tail.spec_bytes();
        assert(t == f.subrange(i as int, f.len() as int));
        if i < j < f.len() {
            assert(t[j - i] == f[j as int]);
            assert(t[j - i - 1] == f[j - 1]);
        }
        lemma_ascii_edge(t, j - i);
    }
    let (piece, _) = tail.split_at(j - i);
    proof {
        assert(piece.spec_bytes() =~= f.subrange(i as int, j as int));
    }
    piece.to_owned()
}

/// The one-character text of the ASCII byte `b`.
fn text_of_byte(b: u8) -> (r: String)
    requires
        b < 128,
    ensures
        encode_utf8(r@) == seq![b],
{
    let v: Vec<u8> = vec![b];
    proof {
        assert(v@ =~= seq![b]);
        assert(crate::text::is_ascii_bytes(v@));
        lemma_ascii_utf8(v@);
        vstd::utf8::decode_utf8_encode_utf8(v@);
    }
    string_from_utf8(v)
}

/// The items of the specifier letter at `k` and the position after it.
fn letter_item_list(f: &[u8], k: usize) -> (r: (Vec<Item>, usize))
    requires
        k <= f@.len(),
    ensures
        items_view(r.0@) == letter_items(f@, k as int).0,
        r.1 == letter_items(f@, k as int).1,
{
    let n = f.len();
    if k >= n {
        let v = vec![Item::Error];
        proof {
            assert(items_view(v@) =~= letter_items(f@, k as int).0);
        }
        return (v, n);
    }
    let c = f[k];
    let (v, j): (Vec<Item>, usize) = if c == 89 {
        (vec![Item::Numeric(Numeric::Year, Pad::Zero)], k + 1)
    } else if c == 109 {
        (vec![Item::Numeric(Numeric::Month, Pad::Zero)], k + 1)
    } else if c == 100 {
        (vec![Item::Numeric(Numeric::Day, Pad::Zero)], k + 1)
    } else if c == 101 {
        (vec![Item::Numeric(Numeric::Day, Pad::Space)], k + 1)
    } else if c == 72 {
        (vec![Item::Numeric(Numeric::Hour, Pad::Zero)], k + 1)
    } else if c == 107 {
        (vec![Item::Numeric(Numeric::Hour, Pad::Space)], k + 1)
    } else if c == 77 {
        (vec![Item::Numeric(Numeric::Minute, Pad::Zero)], k + 1)
    } else if c == 83 {
        (vec![Item::Numeric(Numeric::Second, Pad::Zero)], k + 1)
    } else if c == 102 {
        (vec![Item::Numeric(Numeric::Nanosecond, Pad::Zero)], k + 1)
    } else if c == 70 {
        (
            vec![
                Item::Numeric(Numeric::Year, Pad::Zero),
                Item::Literal(text_of_byte(45)),
                Item::Numeric(Numeric::Month, Pad::Zero),
                Item::Literal(text_of_byte(45)),
                Item::Numeric(Numeric::Day, Pad::Zero),
            ],
            k + 1,
        )
    } else if c == 82 {
        (
            vec![
                Item::Numeric(Numeric::Hour, Pad::Zero),
                Item::Literal(text_of_byte(58)),
                Item::Numeric(Numeric::Minute, Pad::Zero),
            ],
            k + 1,
        )
    } else if c == 84 || c == 88 {
        (
            vec![
                Item::Numeric(Numeric::Hour, Pad::Zero),
                Item::Literal(text_of_byte(58)),
                Item::Numeric(Numeric::Minute, Pad::Zero),
                Item::Literal(text_of_byte(58)),
                Item::Numeric(Numeric::Second, Pad::Zero),
            ],
            k + 1,
        )
    } else if c == 97 {
        (vec![Item::Fixed(Fixed::ShortWeekdayName)], k + 1)
    } else if c == 98 || c == 104 {
        (vec![Item::Fixed(Fixed::ShortMonthName)], k + 1)
    } else if c == 90 {
        (vec![Item::Fixed(Fixed::TimezoneName)], k + 1)
    } else if c == 122 {
        (vec![Item::Fixed(Fixed::TimezoneOffset)], k + 1)
    } else if c == 43 {
        (vec![Item::Fixed(Fixed::RFC3339)], k + 1)
    } else if c == 110 {
        (vec![Item::Space(text_of_byte(10))], k + 1)
    } else if c == 116 {
        (vec![Item::Space(text_of_byte(9))], k + 1)
    } else if c == 37 {
        (vec![Item::Literal(text_of_byte(37))], k + 1)
    } else if c == 65 {
        (vec![Item::Fixed(Fixed::LongWeekdayName)], k + 1)
    } else if c == 66 {
        (vec![Item::Fixed(Fixed::LongMonthName)], k + 1)
    } else if c == 67 {
        (vec![Item::Numeric(Numeric::YearDiv100, Pad::Zero)], k + 1)
    } else if c == 68 || c == 120 {
        (
            vec![
                Item::Numeric(Numeric::Month, Pad::Zero),
                Item::Literal(text_of_byte(47)),
                Item::Numeric(Numeric::Day, Pad::Zero),
                Item::Literal(text_of_byte(47)),
                Item::Numeric(Numeric::YearMod100, Pad::Zero),
            ],
            k + 1,
        )
    } else if c == 73 {
        (vec![Item::Numeric(Numeric::Hour12, Pad::Zero)], k + 1)
    } else if c == 80 {
        (vec![Item::Fixed(Fixed::LowerAmPm)], k + 1)
    } else if c == 99 {
        (
            vec![
                Item::Fixed(Fixed::ShortWeekdayName),
                Item::Space(text_of_byte(32)),
                Item::Fixed(Fixed::ShortMonthName),
                Item::Space(text_of_byte(32)),
                Item::Numeric(Numeric::Day, Pad::Space),
                Item::Space(text_of_byte(32)),
                Item::Numeric(Numeric::Hour, Pad::Zero),
                Item::Literal(text_of_byte(58)),
                Item::Numeric(Numeric::Minute, Pad::Zero),
                Item::Literal(text_of_byte(58)),
                Item::Numeric(Numeric::Second, Pad::Zero),
                Item::Space(text_of_byte(32)),
                Item::Numeric(Numeric::Year, Pad::Zero),
            ],
            k + 1,
        )
    } else if c == 106 {
        (vec![Item::Numeric(Numeric::Ordinal, Pad::Zero)], k + 1)
    } else if c == 108 {
        (vec![Item::Numeric(Numeric::Hour12, Pad::Space)], k + 1)
    } else if c == 112 {
        (vec![Item::Fixed(Fixed::UpperAmPm)], k + 1)
    } else if c == 114 {
        (
            vec![
                Item::Numeric(Numeric::Hour12, Pad::Zero),
                Item::Literal(text_of_byte(58)),
                Item::Numeric(Numeric::Minute, Pad::Zero),
                Item::Literal(text_of_byte(58)),
                Item::Numeric(Numeric::Second, Pad::Zero),
                Item::Space(text_of_byte(32)),
                Item::Fixed(Fixed::UpperAmPm),
            ],
            k + 1,
        )
    } else if c == 117 {
        (vec![Item::Numeric(Numeric::WeekdayFromMon, Pad::Bare)], k + 1)
    } else if c == 118 {
        (
            vec![
                Item::Numeric(Numeric::Day, Pad::Space),
                Item::Literal(text_of_byte(45)),
                Item::Fixed(Fixed::ShortMonthName),
                Item::Literal(text_of_byte(45)),
                Item::Numeric(Numeric::Year, Pad::Zero),
            ],
            k + 1,
        )
    } else if c == 119 {
        (vec![Item::Numeric(Numeric::NumDaysFromSun, Pad::Bare)], k + 1)
    } else if c == 121 {
        (vec![Item::Numeric(Numeric::YearMod100, Pad::Zero)], k + 1)
    } else if c == 71 {
        (vec![Item::Numeric(Numeric::IsoYear, Pad::Zero)], k + 1)
    } else if c == 103 {
        (vec![Item::Numeric(Numeric::IsoYearMod100, Pad::Zero)], k + 1)
    } else if c == 86 {
        (vec![Item::Numeric(Numeric::IsoWeek, Pad::Zero)], k + 1)
    } else if c == 85 {
        (vec![Item::Numeric(Numeric::WeekFromSun, Pad::Zero)], k + 1)
    } else if c == 87 {
        (vec![Item::Numeric(Numeric::WeekFromMon, Pad::Zero)], k + 1)
    } else if c == 58 && k + 1 < n && f[k + 1] == 122 {
        (vec![Item::Fixed(Fixed::TimezoneOffsetColon)], k + 2)
    } else if c == 46 && k + 1 < n && f[k + 1] == 102 {
        (vec![Item::Fixed(Fixed::Nanosecond)], k + 2)
    } else if c == 46 && n - k > 2 && f[k + 2] == 102 && f[k + 1] == 51 {
        (vec![Item::Fixed(Fixed::Nanosecond3)], k + 3)
    } else if c == 46 && n - k > 2 && f[k + 2] == 102 && f[k + 1] == 54 {
        (vec![Item::Fixed(Fixed::Nanosecond6)], k + 3)
    } else if c == 46 && n - k > 2 && f[k + 2] == 102 && f[k + 1] == 57 {
        (vec![Item::Fixed(Fixed::Nanosecond9)], k + 3)
    } else {
        (vec![Item::Error], n)
    };
    proof {
        assert(items_view(v@) =~= letter_items(f@, k as int).0);
    }
    (v, j)
}

/// The items of the specifier starting at `i`, just after a `%`, and the
/// position after it.
fn specifier_item_list(f: &[u8], i: usize) -> (r: (Vec<Item>, usize))
    requires
        i <= f@.len(),
    ensures
        items_view(r.0@) == specifier_items(f@, i as int).0,
        r.1 == specifier_items(f@, i as int).1,
{
    let n = f.len();
    if i >= n {
        let v = vec![Item::Error];
        proof {
            assert(items_view(v@) =~= specifier_items(f@, i as int).0);
        }
        return (v, n);
    }
    let c = f[i];
    let pad: Option<Pad> = if c == 45 {
        Some(Pad::Bare)
    } else if c == 48 {
        Some(Pad::Zero)
    } else if c == 95 {
        Some(Pad::Space)
    } else {
        None
    };
    match pad {
        None => letter_item_list(f, i),
        Some(p) => {
            let (v, j) = letter_item_list(f, i + 1);
            proof {
                assert(items_view(v@).len() == v@.len());
                if v@.len() == 1 {
                    assert(items_view(v@)[0] == v@[0]@);
                }
            }
            if v.len() == 1 {
                if let Item::Numeric(k, _) = v[0] {
                    let w = vec![Item::Numeric(k, p)];
                    proof {
                        assert(items_view(w@) =~= specifier_items(f@, i as int).0);
                    }
                    return (w, j);
                }
            }
            let w = vec![Item::Error];
            proof {
                assert(items_view(w@) =~= specifier_items(f@, i as int).0);
            }
            (w, n)
        },
    }
}

/// End of the run of text from `i` that is neither white space nor `%`.
fn literal_end_at(f: &[u8], i: usize) -> (r: usize)
    requires
        i <= f@.len(),
    ensures
        r == literal_end(f@, i as int),
        i <= r <= f@.len(),
{
    let mut j = i;
    while j < f.len() && f[j] != 37 && !(f[j] == 32 || (9 <= f[j] && f[j] <= 13))
        invariant
            i <= j <= f@.len(),
            literal_end(f@, i as int) == literal_end(f@, j as int),
        decreases f@.len() - j,
    {
        j = j + 1;
    }
    j
}

/// The items a `strftime`-style format string describes, up to and
/// including the first malformed part.
pub fn strftime_items(fmt: &str) -> (r: Vec<Item>)
    ensures
        items_view(r@) == strftime_spec(fmt.spec_bytes()),
{
    let f = fmt.as_bytes();
    let ghost fs = fmt.spec_bytes();
    let mut out: Vec<Item> = Vec::new();
    let mut i: usize = 0;
    proof {
        assert(items_view(out@) =~= Seq::<ItemView>::empty());
        assert(Seq::<ItemView>::empty() + strftime_from(fs, 0) =~= strftime_from(fs, 0));
    }
    while i < f.len()
        invariant
            f@ == fs,
            fs == fmt.spec_bytes(),
            i <= f@.len(),
            ascii_edge(fs, i as int),
            items_view(out@) + strftime_from(fs, i as int) == strftime_from(fs, 0),
        decreases f@.len() - i,
    {
        let ghost before = out@;
        if f[i] == 37 {
            let (mut v, j) = specifier_item_list(f, i + 1);
            let ghost items = v@;
            let error = if let Item::Error = v[0] {
                true
            } else {
                false
            };
            proof {
                assert(items_view(items)[0] == items[0]@);
            }
            out.append(&mut v);
            proof {
                assert(items_view(out@) =~= items_view(before) + items_view(items));
            }
            if error {
                proof {
                    assert(items_view(out@) + strftime_from(fs, f@.len() as int) =~= items_view(
                        out@,
                    ));
                }
                i = f.len();
            } else {
                proof {
                    assert(items_view(before) + (items_view(items) + strftime_from(fs, j as int))
                        =~= items_view(out@) + strftime_from(fs, j as int));
                    assert(j > i + 1);
                    assert(fs[j - 1] < 128);
                }
                i = j;
            }
        } else if f[i] == 32 || (9 <= f[i] && f[i] <= 13) {
            let j = skip_spaces_at(f, i);
            proof {
                lemma_run_ends(fs, i as int);
                lemma_space_run_ascii(fs, i as int);
            }
            let piece = piece_of(fmt, i, j);
            out.push(Item::Space(piece));
            proof {
                assert(items_view(out@) =~= items_view(before).push(
                    ItemView::Space(fs.subrange(i as int, j as int)),
                ));
                assert(items_view(before) + (seq![ItemView::Space(fs.subrange(i as int, j as int))]
                    + strftime_from(fs, j as int)) =~= items_view(out@) + strftime_from(
                    fs,
                    j as int,
                ));
            }
            i = j;
        } else {
            let j = literal_end_at(f, i);
            proof {
                lemma_run_ends(fs, i as int);
                lemma_literal_run_stop(fs, i as int);
            }
            let piece = piece_of(fmt, i, j);
            out.push(Item::Literal(piece));
            proof {
                assert(items_view(out@) =~= items_view(before).push(
                    ItemView::Literal(fs.subrange(i as int, j as int)),
                ));
                assert(items_view(before) + (seq![
                    ItemView::Literal(fs.subrange(i as int, j as int)),
                ] + strftime_from(fs, j as int)) =~= items_view(out@) + strftime_from(
                    fs,
                    j as int,
                ));
            }
            i = j;
        }
    }
    proof {
        assert(items_view(out@) + strftime_from(fs, i as int) =~= items_view(out@));
    }
    out
}

/// A run of white space is ASCII, and so is the byte that ends it.
pub proof fn lemma_space_run_ascii(f: Seq<u8>, i: int)
    requires
        0 <= i < f.len(),
        is_space(f[i]),
    ensures
        i < skip_spaces(f, i) <= f.len(),
        f[skip_spaces(f, i) - 1] < 128,
    decreases f.len() - i,
{
    assert(skip_spaces(f, i) == skip_spaces(f, i + 1));
    if i + 1 < f.len() && is_space(f[i + 1]) {
        lemma_space_run_ascii(f, i + 1);
    } else {
        assert(skip_spaces(f, i + 1) == i + 1);
    }
}

/// A literal run stops at `%`, white space or the end.
pub proof fn lemma_literal_run_stop(f: Seq<u8>, i: int)
    requires
        0 <= i <= f.len(),
    ensures
        literal_end(f, i) < f.len() ==> (f[literal_end(f, i)] == 37 || is_space(
            f[literal_end(f, i)],
        )),
    decreases f.len() - i,
{
    if 0 <= i < f.len() && f[i] != 37 && !is_space(f[i]) {
        lemma_literal_run_stop(f, i + 1);
    }
}

} // verus!
