//! Date-times are ordered by the instants they stand for.
use vstd::prelude::*;
use std::cmp::Ordering;
use vstd::std_specs::cmp::PartialOrdSpec;
use crate::datetime::DateTime;
use crate::offset::Offset;

verus! {

/// Lexicographic comparison of two pairs of integers.
pub open spec fn compare_pairs(a: (int, int), b: (int, int)) -> Ordering {
    if a.0 < b.0 || (a.0 == b.0 && a.1 < b.1) {
        Ordering::Less
    } else if a == b {
        Ordering::Equal
    } else {
        Ordering::Greater
    }
}

impl<Tz: Offset> PartialOrd for DateTime<Tz> {
    fn partial_cmp(&self, other: &DateTime<Tz>) -> (r: Option<Ordering>) {
        let a = self.timestamp();
        let b = other.timestamp();
        let fa = self.nanosecond();
        let fb = other.nanosecond();
        if a < b || (a == b && fa < fb) {
            Some(Ordering::Less)
        } else if a == b && fa == fb {
            Some(Ordering::Equal)
        } else {
            Some(Ordering::Greater)
        }
    }
}

impl<Tz: Offset> vstd::std_specs::cmp::PartialOrdSpecImpl for DateTime<Tz> {
    open spec fn obeys_partial_cmp_spec() -> bool {
        true
    }

    open spec fn partial_cmp_spec(&self, other: &DateTime<Tz>) -> Option<Ordering> {
        Some(compare_pairs(self@.0, other@.0))
    }
}

/// Date-times compare equal exactly when they are equal, and the order is
/// antisymmetric.
pub proof fn lemma_order_agrees_with_eq(a: (int, int), b: (int, int))
    ensures
        (compare_pairs(a, b) == Ordering::Equal) <==> a == b,
        compare_pairs(a, b) == Ordering::Less <==> compare_pairs(b, a) == Ordering::Greater,
{
}

/// The order of date-times is transitive.
pub proof fn lemma_order_transitive(a: (int, int), b: (int, int), c: (int, int))
    requires
        compare_pairs(a, b) == Ordering::Less,
        compare_pairs(b, c) == Ordering::Less,
    ensures
        compare_pairs(a, c) == Ordering::Less,
{
}

/// Date-times are ordered by time: one whose instant has fewer seconds
/// since the epoch is less, one with more is greater; within the same
/// second the one with the smaller fraction (a leap second's fraction
/// coming last) is less; the same instant compares equal.
pub proof fn lemma_order_follows_time<Tz: Offset>(a: DateTime<Tz>, b: DateTime<Tz>)
    ensures
        a@.0.0 < b@.0.0 ==> a.partial_cmp_spec(&b) == Some(Ordering::Less),
        a@.0.0 > b@.0.0 ==> a.partial_cmp_spec(&b) == Some(Ordering::Greater),
        a@.0.0 == b@.0.0 && a@.0.1 < b@.0.1 ==> a.partial_cmp_spec(&b) == Some(Ordering::Less),
        a@.0.0 == b@.0.0 && a@.0.1 > b@.0.1 ==> a.partial_cmp_spec(&b) == Some(Ordering::Greater),
        a@.0 == b@.0 ==> a.partial_cmp_spec(&b) == Some(Ordering::Equal),
{
}

} // verus!
