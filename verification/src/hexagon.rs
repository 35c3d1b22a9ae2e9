//! The ordering set: the fixed catalogue of the six permutations of the
//! three field roles, each bound to a storage namespace. The catalogue order
//! is the planner's priority order and never changes.

use vstd::prelude::*;
use crate::triple::{Property, PropertyOrder};

verus! {

/// The catalogue entry at position `i`.
pub open spec fn spec_order_at(i: int) -> PropertyOrder {
    if i == 0 {
        (Property::Subject, Property::Predicate, Property::Object)
    } else if i == 1 {
        (Property::Subject, Property::Object, Property::Predicate)
    } else if i == 2 {
        (Property::Predicate, Property::Object, Property::Subject)
    } else if i == 3 {
        (Property::Predicate, Property::Subject, Property::Object)
    } else if i == 4 {
        (Property::Object, Property::Subject, Property::Predicate)
    } else {
        (Property::Object, Property::Predicate, Property::Subject)
    }
}

/// The role at position `pos` of an ordering.
pub open spec fn order_pos(ord: PropertyOrder, pos: int) -> Property {
    if pos == 0 {
        ord.0
    } else if pos == 1 {
        ord.1
    } else {
        ord.2
    }
}

/// The name of the namespace that serves the catalogue entry at position `i`.
pub open spec fn spec_order_name(i: int) -> Seq<char> {
    if i == 0 {
        "spo"@
    } else if i == 1 {
        "sop"@
    } else if i == 2 {
        "pos"@
    } else if i == 3 {
        "pso"@
    } else if i == 4 {
        "osp"@
    } else {
        "ops"@
    }
}

/// The catalogue entry at position `i`.
pub fn order_at(i: usize) -> (r: PropertyOrder)
    requires
        i < 6,
    ensures
        r == spec_order_at(i as int),
{
    if i == 0 {
        (Property::Subject, Property::Predicate, Property::Object)
    } else if i == 1 {
        (Property::Subject, Property::Object, Property::Predicate)
    } else if i == 2 {
        (Property::Predicate, Property::Object, Property::Subject)
    } else if i == 3 {
        (Property::Predicate, Property::Subject, Property::Object)
    } else if i == 4 {
        (Property::Object, Property::Subject, Property::Predicate)
    } else {
        (Property::Object, Property::Predicate, Property::Subject)
    }
}

/// The name of the namespace that serves the catalogue entry at position `i`.
pub fn order_name(i: usize) -> (r: &'static str)
    requires
        i < 6,
    ensures
        r@ == spec_order_name(i as int),
{
    if i == 0 {
        "spo"
    } else if i == 1 {
        "sop"
    } else if i == 2 {
        "pos"
    } else if i == 3 {
        "pso"
    } else if i == 4 {
        "osp"
    } else {
        "ops"
    }
}

/// Every catalogue entry is a true permutation: its three positions hold
/// three distinct roles.
pub proof fn lemma_order_is_permutation(i: int)
    requires
        0 <= i < 6,
    ensures
        spec_order_at(i).0 != spec_order_at(i).1,
        spec_order_at(i).0 != spec_order_at(i).2,
        spec_order_at(i).1 != spec_order_at(i).2,
{
}

} // verus!
