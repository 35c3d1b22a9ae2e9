//! The field model: the three field roles and the Triple value type.

use vstd::prelude::*;

verus! {

/// One of the three roles a field plays in a fact.
#[derive(Clone, Copy, Debug, PartialEq, Eq, Structural)]
pub enum Property {
    Subject,
    Predicate,
    Object,
}

/// A permutation of the three roles: which role occupies position 0, 1, 2
/// of a composite key.
pub type PropertyOrder = (Property, Property, Property);

/// A subject-predicate-object fact. Immutable once constructed.
#[derive(Clone, Debug, PartialEq, Eq)]
pub struct Triple {
    pub subject: String,
    pub predicate: String,
    pub object: String,
}

/// The mathematical value of a triple: its three fields as character
/// sequences.
#[verifier::ext_equal]
pub struct TripleVal {
    pub s: Seq<char>,
    pub p: Seq<char>,
    pub o: Seq<char>,
}

impl TripleVal {
    /// The field that plays the given role.
    pub open spec fn field(self, property: Property) -> Seq<char> {
        match property {
            Property::Subject => self.s,
            Property::Predicate => self.p,
            Property::Object => self.o,
        }
    }
}

impl View for Triple {
    type V = TripleVal;

    open spec fn view(&self) -> TripleVal {
        TripleVal { s: self.subject@, p: self.predicate@, o: self.object@ }
    }
}

/// A triple's fields rearranged into the positions of one ordering;
/// position 0 first.
pub struct ReorderedTriple(pub String, pub String, pub String);

impl Triple {
    pub fn new(subject: String, predicate: String, object: String) -> (t: Triple)
        ensures
            t@ == (TripleVal { s: subject@, p: predicate@, o: object@ }),
    {
        Triple { subject, predicate, object }
    }

    /// The field that plays the given role.
    pub fn index(&self, property: Property) -> (r: &String)
        ensures
            r@ == self@.field(property),
    {
        match property {
            Property::Subject => &self.subject,
            Property::Predicate => &self.predicate,
            Property::Object => &self.object,
        }
    }

    /// The triple's fields arranged in the given ordering's positions.
    pub fn reorder(&self, order: &PropertyOrder) -> (r: ReorderedTriple)
        ensures
            r.0@ == self@.field(order.0),
            r.1@ == self@.field(order.1),
            r.2@ == self@.field(order.2),
    {
        let a = self.index(order.0);
        let b = self.index(order.1);
        let c = self.index(order.2);
        ReorderedTriple(a.clone(), b.clone(), c.clone())
    }
}

} // verus!
