//! The order of sovereignty levels: by their numbers, so a higher level
//! compares greater.

use core::cmp::Ordering;
use vstd::prelude::*;
use vstd::std_specs::cmp::PartialOrdSpec;
use crate::sovereignty::{level_number, SovereigntyLevel};

verus! {

impl PartialOrd for SovereigntyLevel {
    fn partial_cmp(&self, other: &Self) -> (r: Option<Ordering>) {
        let a = self.as_u8();
        let b = other.as_u8();
        if a < b {
            Some(Ordering::Less)
        } else if a == b {
            Some(Ordering::Equal)
        } else {
            Some(Ordering::Greater)
        }
    }
}

impl vstd::std_specs::cmp::PartialOrdSpecImpl for SovereigntyLevel {
    open spec fn obeys_partial_cmp_spec() -> bool {
        true
    }

    open spec fn partial_cmp_spec(&self, other: &Self) -> Option<Ordering> {
        if level_number(*self) < level_number(*other) {
            Some(Ordering::Less)
        } else if level_number(*self) == level_number(*other) {
            Some(Ordering::Equal)
        } else {
            Some(Ordering::Greater)
        }
    }
}

/// Levels are ordered by their numbers: `a <= b` exactly when `a`'s number
/// is at most `b`'s, the comparison is total, and only equal levels
/// compare equal.
pub proof fn lemma_level_order(a: SovereigntyLevel, b: SovereigntyLevel)
    ensures
        (a.partial_cmp_spec(&b) matches Some(Ordering::Less) || a.partial_cmp_spec(&b) matches Some(
            Ordering::Equal,
        )) <==> level_number(a) <= level_number(b),
        a.partial_cmp_spec(&b) == Some(Ordering::Less) <==> level_number(a) < level_number(b),
        a.partial_cmp_spec(&b) == Some(Ordering::Equal) <==> a == b,
        a.partial_cmp_spec(&b) is Some,
{
}

} // verus!
