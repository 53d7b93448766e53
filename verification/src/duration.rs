//! A signed span of time with nanosecond precision.
use vstd::prelude::*;

verus! {

/// Nanoseconds in a second.
pub const NANOS_PER_SEC: i64 = 1_000_000_000;

/// The largest span a `Duration` holds, in nanoseconds: `i64::MAX` milliseconds.
pub open spec fn max_nanos() -> int {
    9_223_372_036_854_775_807_000_000int
}

/// Whether a number of nanoseconds fits in a `Duration`.
pub open spec fn nanos_in_range(n: int) -> bool {
    -max_nanos() <= n <= max_nanos()
}

/// Whether a number of nanoseconds can be held at all: up to 2^63
/// milliseconds either way, so that every span built from an `i64` count of
/// milliseconds, and its negation, can be held.
pub open spec fn nanos_representable(n: int) -> bool {
    -9_223_372_036_854_775_808_000_000int <= n <= 9_223_372_036_854_775_808_000_000int
}

/// Integer division rounding toward zero.
pub open spec fn div_trunc(a: int, b: int) -> int {
    if a >= 0 {
        a / b
    } else {
        -((-a) / b)
    }
}

/// Largest number of whole seconds `Duration::seconds` accepts, either sign.
pub const MAX_SECONDS: i64 = 9_223_372_036_854_775;

/// A signed span of time, viewed as a whole number of nanoseconds.
#[derive(Clone, Copy, Debug, PartialEq, Eq, Structural)]
pub struct Duration {
    secs: i64,
    nanos: i32,
}

impl View for Duration {
    type V = int;

    closed spec fn view(&self) -> int {
        self.secs * 1_000_000_000 + self.nanos
    }
}

/// Floor division and remainder of `a` by a positive `b`.
pub fn div_mod_floor(a: i64, b: i64) -> (r: (i64, i64))
    requires
        b > 0,
    ensures
        r.0 == a as int / b as int,
        r.1 == a as int % b as int,
        0 <= r.1 < b,
        a == r.0 * b + r.1,
{
    if a >= 0 {
        proof {
            vstd::arithmetic::div_mod::lemma_fundamental_div_mod(a as int, b as int);
            vstd::arithmetic::mul::lemma_mul_is_commutative(a / b, b as int);
        }
        (a / b, a % b)
    } else {
        let p: i64 = -(a + 1);
        let q = p / b;
        let m = p % b;
        proof {
            vstd::arithmetic::div_mod::lemma_fundamental_div_mod(p as int, b as int);
            vstd::arithmetic::mul::lemma_mul_is_commutative(q as int, b as int);
            vstd::arithmetic::mul::lemma_mul_is_distributive_add(b as int, q as int, 1);
            vstd::arithmetic::mul::lemma_mul_unary_negation(q + 1, b as int);
            vstd::arithmetic::div_mod::lemma_fundamental_div_mod_converse(
                a as int,
                b as int,
                -q - 1,
                b - 1 - m,
            );
            vstd::arithmetic::mul::lemma_mul_inequality(0, q as int, b as int);
            vstd::arithmetic::mul::lemma_mul_inequality(q as int, p as int, b as int);
        }
        (-q - 1, b - 1 - m)
    }
}

impl Duration {
    #[verifier::type_invariant]
    pub closed spec fn inv(self) -> bool {
        &&& 0 <= self.nanos < 1_000_000_000
        &&& nanos_representable(self.secs * 1_000_000_000 + self.nanos)
    }

    /// What every `Duration` satisfies: its span can be held.
    pub proof fn lemma_inv(self)
        requires
            self.inv(),
        ensures
            nanos_representable(self@),
    {
    }

    /// The duration whose view is `n`, for a representable `n`.
    pub closed spec fn with_view(n: int) -> Duration {
        Duration { secs: (n / 1_000_000_000) as i64, nanos: (n % 1_000_000_000) as i32 }
    }

    /// For a representable `n`, `with_view` gives a duration whose view is
    /// `n`.
    pub proof fn lemma_view_of_with_view(n: int)
        requires
            nanos_representable(n),
        ensures
            Duration::with_view(n).inv(),
            Duration::with_view(n)@ == n,
    {
        vstd::arithmetic::div_mod::lemma_fundamental_div_mod(n, 1_000_000_000);
    }

    /// A duration is the one `with_view` gives for its view.
    pub proof fn lemma_with_view(self)
        requires
            self.inv(),
        ensures
            Duration::with_view(self@) == self,
    {
        vstd::arithmetic::div_mod::lemma_fundamental_div_mod_converse(
            self@,
            1_000_000_000,
            self.secs as int,
            self.nanos as int,
        );
    }

    /// Builds the duration of `n` nanoseconds, which must be representable.
    pub fn from_total_nanos(n: i128) -> (r: Duration)
        requires
            nanos_representable(n as int),
        ensures
            r@ == n,
    {
        let s = n / 1_000_000_000;
        let f = n % 1_000_000_000;
        if n >= 0 {
            proof {
                vstd::arithmetic::div_mod::lemma_fundamental_div_mod(n as int, 1_000_000_000);
            }
            Duration { secs: s as i64, nanos: f as i32 }
        } else {
            let p: i128 = -(n + 1);
            let q = p / 1_000_000_000;
            let m = p % 1_000_000_000;
            proof {
                vstd::arithmetic::div_mod::lemma_fundamental_div_mod(p as int, 1_000_000_000);
            }
            Duration { secs: (-q - 1) as i64, nanos: (999_999_999 - m) as i32 }
        }
    }

    /// The span split into whole seconds, rounded down, and the remaining
    /// nanoseconds.
    pub fn floor_parts(&self) -> (r: (i64, u32))
        ensures
            r.0 == self@ / 1_000_000_000,
            r.1 == self@ % 1_000_000_000,
            r.0 * 1_000_000_000 + r.1 == self@,
            r.1 < 1_000_000_000,
            -9_223_372_036_854_776 <= r.0 <= 9_223_372_036_854_776,
    {
        proof {
            use_type_invariant(self);
            vstd::arithmetic::div_mod::lemma_fundamental_div_mod_converse(
                self@,
                1_000_000_000,
                self.secs as int,
                self.nanos as int,
            );
        }
        (self.secs, self.nanos as u32)
    }

    /// The span in nanoseconds, as a wide integer.
    pub fn total_nanos(&self) -> (r: i128)
        ensures
            r == self@,
            nanos_representable(r as int),
    {
        proof {
            use_type_invariant(self);
        }
        self.secs as i128 * 1_000_000_000 + self.nanos as i128
    }

    /// The empty span.
    pub fn zero() -> (r: Duration)
        ensures
            r@ == 0,
    {
        Duration { secs: 0, nanos: 0 }
    }

    /// A span of `secs` seconds; the magnitude may not exceed `MAX_SECONDS`.
    pub fn seconds(secs: i64) -> (r: Duration)
        requires
            -MAX_SECONDS <= secs <= MAX_SECONDS,
        ensures
            r@ == secs * 1_000_000_000,
    {
        Duration { secs, nanos: 0 }
    }

    /// A span of `ms` milliseconds.
    pub fn milliseconds(ms: i64) -> (r: Duration)
        ensures
            r@ == ms * 1_000_000,
    {
        Duration::from_total_nanos(ms as i128 * 1_000_000)
    }

    /// A span of `us` microseconds.
    pub fn microseconds(us: i64) -> (r: Duration)
        ensures
            r@ == us * 1_000,
    {
        Duration::from_total_nanos(us as i128 * 1_000)
    }

    /// A span of `ns` nanoseconds.
    pub fn nanoseconds(ns: i64) -> (r: Duration)
        ensures
            r@ == ns,
    {
        Duration::from_total_nanos(ns as i128)
    }

    /// Whole seconds in the span, rounded toward zero.
    pub fn num_seconds(&self) -> (r: i64)
        ensures
            r == div_trunc(self@, 1_000_000_000),
    {
        proof {
            use_type_invariant(self);
        }
        let t = self.total_nanos();
        if t >= 0 {
            (t / 1_000_000_000) as i64
        } else {
            (-((-t) / 1_000_000_000)) as i64
        }
    }

    /// Whole milliseconds in the span, rounded toward zero; the count must
    /// fit in an `i64`.
    pub fn num_milliseconds(&self) -> (r: i64)
        requires
            div_trunc(self@, 1_000_000) <= i64::MAX,
        ensures
            r == div_trunc(self@, 1_000_000),
    {
        let t = self.total_nanos();
        if t >= 0 {
            (t / 1_000_000) as i64
        } else {
            (-((-t) / 1_000_000)) as i64
        }
    }

    /// Whole microseconds in the span, rounded toward zero, if they fit in an `i64`.
    pub fn num_microseconds(&self) -> (r: Option<i64>)
        ensures
            r == (if i64::MIN <= div_trunc(self@, 1_000) <= i64::MAX {
                Some(div_trunc(self@, 1_000) as i64)
            } else {
                None::<i64>
            }),
    {
        let t = self.total_nanos();
        let q: i128 = if t >= 0 {
            t / 1_000
        } else {
            -((-t) / 1_000)
        };
        if i64::MIN as i128 <= q && q <= i64::MAX as i128 {
            Some(q as i64)
        } else {
            None
        }
    }

    /// The span in nanoseconds, if it fits in an `i64`.
    pub fn num_nanoseconds(&self) -> (r: Option<i64>)
        ensures
            r == (if i64::MIN <= self@ <= i64::MAX {
                Some(self@ as i64)
            } else {
                None::<i64>
            }),
    {
        let t = self.total_nanos();
        if i64::MIN as i128 <= t && t <= i64::MAX as i128 {
            Some(t as i64)
        } else {
            None
        }
    }

    /// The sum of two spans, or `None` when it leaves the range.
    pub fn checked_add(&self, rhs: &Duration) -> (r: Option<Duration>)
        ensures
            r is Some <==> nanos_in_range(self@ + rhs@),
            r matches Some(d) ==> d@ == self@ + rhs@,
    {
        let t = self.total_nanos() + rhs.total_nanos();
        if -9_223_372_036_854_775_807_000_000i128 <= t && t <= 9_223_372_036_854_775_807_000_000i128 {
            Some(Duration::from_total_nanos(t))
        } else {
            None
        }
    }

    /// The difference of two spans, or `None` when it leaves the range.
    pub fn checked_sub(&self, rhs: &Duration) -> (r: Option<Duration>)
        ensures
            r is Some <==> nanos_in_range(self@ - rhs@),
            r matches Some(d) ==> d@ == self@ - rhs@,
    {
        let t = self.total_nanos() - rhs.total_nanos();
        if -9_223_372_036_854_775_807_000_000i128 <= t && t <= 9_223_372_036_854_775_807_000_000i128 {
            Some(Duration::from_total_nanos(t))
        } else {
            None
        }
    }

    /// The span of the same length in the other direction.
    pub fn neg(&self) -> (r: Duration)
        ensures
            r@ == -self@,
    {
        let t = self.total_nanos();
        Duration::from_total_nanos(-t)
    }
}

} // verus!
