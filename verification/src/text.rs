//! ASCII renderings of numbers, as used by the textual forms of dates and
//! times.
use vstd::prelude::*;
use vstd::utf8::{valid_utf8, decode_utf8, encode_utf8, is_ascii_chars};

verus! {

/// The ASCII digit for `n`, which must be below ten.
pub open spec fn digit(n: int) -> u8 {
    (48 + n) as u8
}

/// `n` written with exactly `w` decimal digits (the lowest ones), padded
/// with zeros on the left.
pub open spec fn fixed_width(n: nat, w: nat) -> Seq<u8>
    decreases w,
{
    if w == 0 {
        Seq::empty()
    } else {
        fixed_width(n / 10, (w - 1) as nat).push(digit((n % 10) as int))
    }
}

/// Ten to the power `w`.
pub open spec fn pow10(w: nat) -> nat
    decreases w,
{
    if w == 0 {
        1
    } else {
        10 * pow10((w - 1) as nat)
    }
}

/// Whether every byte is an ASCII character.
pub open spec fn is_ascii_bytes(s: Seq<u8>) -> bool {
    forall|i: int| 0 <= i < s.len() ==> #[trigger] s[i] < 128
}

/// The characters of an ASCII byte sequence.
pub open spec fn ascii_chars(s: Seq<u8>) -> Seq<char> {
    s.map_values(|b: u8| b as char)
}

/// A written number is made of ASCII digits and has the width asked for.
pub proof fn lemma_fixed_width(n: nat, w: nat)
    ensures
        fixed_width(n, w).len() == w,
        is_ascii_bytes(fixed_width(n, w)),
        forall|i: int| 0 <= i < w ==> 48 <= #[trigger] fixed_width(n, w)[i] <= 57,
    decreases w,
{
    if w > 0 {
        lemma_fixed_width(n / 10, (w - 1) as nat);
        let s = fixed_width(n / 10, (w - 1) as nat);
        assert forall|i: int| 0 <= i < w implies 48 <= #[trigger] fixed_width(n, w)[i] <= 57 by {
            if i < w - 1 {
                assert(fixed_width(n, w)[i] == s[i]);
            }
        }
    }
}

/// ASCII bytes are valid UTF-8, and they encode and decode the characters
/// of the same codes.
pub proof fn lemma_ascii_utf8(b: Seq<u8>)
    requires
        is_ascii_bytes(b),
    ensures
        valid_utf8(b),
        decode_utf8(b) == ascii_chars(b),
        encode_utf8(ascii_chars(b)) == b,
{
    let c = ascii_chars(b);
    assert(is_ascii_chars(c));
    vstd::utf8::is_ascii_chars_encode_utf8(c);
    assert(encode_utf8(c) =~= b);
    vstd::utf8::encode_utf8_valid_utf8(c);
    vstd::utf8::encode_utf8_decode_utf8(c);
}

/// Concatenating ASCII byte sequences gives an ASCII byte sequence.
pub proof fn lemma_ascii_concat(a: Seq<u8>, b: Seq<u8>)
    requires
        is_ascii_bytes(a),
        is_ascii_bytes(b),
    ensures
        is_ascii_bytes(a + b),
{
    assert forall|i: int| 0 <= i < (a + b).len() implies #[trigger] (a + b)[i] < 128 by {
        if i < a.len() {
            assert((a + b)[i] == a[i]);
        } else {
            assert((a + b)[i] == b[i - a.len()]);
        }
    }
}

/// Appends `n` written with exactly `w` digits.
pub fn push_fixed_width(out: &mut Vec<u8>, n: u64, w: u32)
    ensures
        final(out)@ == old(out)@ + fixed_width(n as nat, w as nat),
        is_ascii_bytes(old(out)@) ==> is_ascii_bytes(final(out)@),
    decreases w,
{
    proof {
        lemma_fixed_width(n as nat, w as nat);
        if is_ascii_bytes(old(out)@) {
            lemma_ascii_concat(old(out)@, fixed_width(n as nat, w as nat));
        }
    }
    if w > 0 {
        push_fixed_width(out, n / 10, w - 1);
        out.push(48 + (n % 10) as u8);
        proof {
            let a = old(out)@;
            let b = fixed_width((n / 10) as nat, (w - 1) as nat);
            assert(a + b.push(digit((n % 10) as int)) =~= (a + b).push(digit((n % 10) as int)));
        }
    } else {
        proof {
            assert(old(out)@ + Seq::<u8>::empty() =~= old(out)@);
        }
    }
}

/// Appends one ASCII byte.
pub fn push_byte(out: &mut Vec<u8>, b: u8)
    requires
        b < 128,
    ensures
        final(out)@ == old(out)@ + seq![b],
        is_ascii_bytes(old(out)@) ==> is_ascii_bytes(final(out)@),
{
    out.push(b);
    proof {
        assert(final(out)@ =~= old(out)@ + seq![b]);
        if is_ascii_bytes(old(out)@) {
            lemma_ascii_concat(old(out)@, seq![b]);
        }
    }
}

/// Appends the bytes of `s`.
pub fn push_all(out: &mut Vec<u8>, s: &[u8])
    ensures
        final(out)@ == old(out)@ + s@,
        is_ascii_bytes(old(out)@) && is_ascii_bytes(s@) ==> is_ascii_bytes(final(out)@),
{
    proof {
        if is_ascii_bytes(old(out)@) && is_ascii_bytes(s@) {
            lemma_ascii_concat(old(out)@, s@);
        }
    }
    let mut i: usize = 0;
    while i < s.len()
        invariant
            i <= s.len(),
            out@ == old(out)@ + s@.subrange(0, i as int),
        decreases s.len() - i,
    {
        out.push(s[i]);
        i = i + 1;
        proof {
            assert(s@.subrange(0, i as int) =~= s@.subrange(0, i - 1).push(s@[i - 1]));
        }
    }
    proof {
        assert(s@.subrange(0, s@.len() as int) =~= s@);
    }
}

/// The text whose UTF-8 encoding is `bytes`.
///
/// Trusted: `String::from_utf8` turns valid UTF-8 into the `String` of the
/// characters it encodes. The bytes are required to be valid, so its error
/// case is never taken.
#[verifier::external_body]
pub(crate) fn string_from_utf8(bytes: Vec<u8>) -> (r: String)
    requires
        valid_utf8(bytes@),
    ensures
        r@ == decode_utf8(bytes@),
{
    match String::from_utf8(bytes) {
        Ok(s) => s,
        Err(_) => String::new(),
    }
}

/// The characters of ASCII bytes, as a `String`.
pub fn ascii_string(bytes: Vec<u8>) -> (r: String)
    requires
        is_ascii_bytes(bytes@),
    ensures
        r@ == ascii_chars(bytes@),
{
    proof {
        lemma_ascii_utf8(bytes@);
    }
    string_from_utf8(bytes)
}

} // verus!
