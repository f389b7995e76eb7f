//! The order on locations: component-wise, hence partial. Two locations
//! compare as less or greater only where all three axes agree on it.

use vstd::prelude::*;
use core::cmp::Ordering;
use vstd::std_specs::cmp::PartialOrdSpec;
use crate::spatial::Location;

verus! {

impl PartialOrd for Location {
    fn partial_cmp(&self, other: &Location) -> (r: Option<Ordering>) {
        let below = self.x_millis() <= other.x_millis() && self.y_millis() <= other.y_millis()
            && self.z_millis() <= other.z_millis();
        let above = other.x_millis() <= self.x_millis() && other.y_millis() <= self.y_millis()
            && other.z_millis() <= self.z_millis();
        if below && above {
            Some(Ordering::Equal)
        } else if below {
            Some(Ordering::Less)
        } else if above {
            Some(Ordering::Greater)
        } else {
            None
        }
    }
}

impl vstd::std_specs::cmp::PartialOrdSpecImpl for Location {
    open spec fn obeys_partial_cmp_spec() -> bool {
        true
    }

    open spec fn partial_cmp_spec(&self, other: &Location) -> Option<Ordering> {
        if self.dominated_by(other) && other.dominated_by(self) {
            Some(Ordering::Equal)
        } else if self.dominated_by(other) {
            Some(Ordering::Less)
        } else if other.dominated_by(self) {
            Some(Ordering::Greater)
        } else {
            None
        }
    }
}

/// Two locations compare as equal exactly when they are the same location.
pub proof fn lemma_order_equal_is_same(a: Location, b: Location)
    ensures
        a.partial_cmp_spec(&b) == Some(Ordering::Equal) <==> a == b,
{
    if a.dominated_by(&b) && b.dominated_by(&a) {
        Location::lemma_view_injective(a, b);
    }
}

/// Turning a comparison round turns its result round.
pub proof fn lemma_order_antisymmetric(a: Location, b: Location)
    ensures
        a.partial_cmp_spec(&b) == Some(Ordering::Less) <==> b.partial_cmp_spec(&a) == Some(
            Ordering::Greater,
        ),
        a.partial_cmp_spec(&b) is None <==> b.partial_cmp_spec(&a) is None,
{
}

/// Being dominated carries over a middle location.
pub proof fn lemma_order_transitive(a: Location, b: Location, c: Location)
    requires
        a.dominated_by(&b),
        b.dominated_by(&c),
    ensures
        a.dominated_by(&c),
{
}

} // verus!
