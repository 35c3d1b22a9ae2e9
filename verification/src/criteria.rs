//! Criteria: a partial binding of the three field roles, its fluent
//! builder, and the planner that decides which orderings can serve the
//! binding by a single prefix scan.

use vstd::prelude::*;
use crate::triple::{Property, PropertyOrder, TripleVal};
use crate::hexagon::{spec_order_at, order_at};
use crate::codec::{SEP, field_bytes, joined, append_field, lemma_joined_concat, lemma_joined1};

verus! {

/// The mathematical value of a criteria: an optional required exact value
/// per field role.
#[verifier::ext_equal]
pub struct CriteriaVal {
    pub s: Option<Seq<char>>,
    pub p: Option<Seq<char>>,
    pub o: Option<Seq<char>>,
}

impl CriteriaVal {
    /// The requirement on the field of the given role.
    pub open spec fn field(self, property: Property) -> Option<Seq<char>> {
        match property {
            Property::Subject => self.s,
            Property::Predicate => self.p,
            Property::Object => self.o,
        }
    }

    /// True when the binding requires an exact value for the given role.
    pub open spec fn bound(self, property: Property) -> bool {
        self.field(property) is Some
    }

    /// How many roles are bound.
    pub open spec fn bound_count(self) -> int {
        (if self.s is Some {
            1int
        } else {
            0int
        }) + (if self.p is Some {
            1int
        } else {
            0int
        }) + (if self.o is Some {
            1int
        } else {
            0int
        })
    }

    /// True when the triple carries the required value of every bound role.
    pub open spec fn matches(self, t: TripleVal) -> bool {
        &&& self.s is Some ==> t.s == self.s->Some_0
        &&& self.p is Some ==> t.p == self.p->Some_0
        &&& self.o is Some ==> t.o == self.o->Some_0
    }

    /// An ordering can serve a binding by one prefix scan exactly when the
    /// bound roles occupy its leading positions: a bound role behind an
    /// unbound one cannot be part of a contiguous byte prefix.
    pub open spec fn usable(self, ord: PropertyOrder) -> bool {
        &&& self.bound(ord.1) ==> self.bound(ord.0)
        &&& self.bound(ord.2) ==> self.bound(ord.1)
    }

    /// The bound field tokens, arranged in the ordering's positions.
    pub open spec fn bound_tokens(self, ord: PropertyOrder) -> Seq<Seq<u8>> {
        (if self.bound(ord.0) {
            seq![field_bytes(self.field(ord.0)->Some_0)]
        } else {
            Seq::empty()
        }) + (if self.bound(ord.1) {
            seq![field_bytes(self.field(ord.1)->Some_0)]
        } else {
            Seq::empty()
        }) + (if self.bound(ord.2) {
            seq![field_bytes(self.field(ord.2)->Some_0)]
        } else {
            Seq::empty()
        })
    }

    /// The scan prefix under one ordering: the bound tokens joined, with one
    /// extra separator marking the exact-value boundary.
    pub open spec fn spec_prefix(self, ord: PropertyOrder) -> Seq<u8> {
        joined(self.bound_tokens(ord)) + seq![SEP]
    }

    /// The first catalogue position at or after `i` whose ordering can serve
    /// this binding; 6 when none can.
    pub open spec fn first_usable_from(self, i: int) -> int
        decreases 6 - i,
        when i <= 6
    {
        if i >= 6 {
            6
        } else if self.usable(spec_order_at(i)) {
            i
        } else {
            self.first_usable_from(i + 1)
        }
    }

    /// The catalogue position the planner picks: the first usable one, a
    /// fixed deterministic tie-break.
    pub open spec fn plan(self) -> int {
        self.first_usable_from(0)
    }
}

proof fn lemma_first_usable_props(c: CriteriaVal, i: int)
    requires
        0 <= i <= 6,
    ensures
        i <= c.first_usable_from(i) <= 6,
        c.first_usable_from(i) < 6 ==> c.usable(spec_order_at(c.first_usable_from(i))),
        forall|j: int| i <= j < c.first_usable_from(i) ==> !c.usable(spec_order_at(j)),
    decreases 6 - i,
{
    if i < 6 && !c.usable(spec_order_at(i)) {
        lemma_first_usable_props(c, i + 1);
    }
}

/// The planner is total: every binding, from the empty one to a full point
/// lookup, has at least one usable ordering, and the planner picks the
/// first usable one in catalogue order.
pub proof fn lemma_planner_total(c: CriteriaVal)
    ensures
        0 <= c.plan() < 6,
        c.usable(spec_order_at(c.plan())),
        forall|j: int| 0 <= j < c.plan() ==> !c.usable(spec_order_at(j)),
{
    lemma_first_usable_props(c, 0);
    if c.s is Some {
        if c.o is Some && c.p is None {
            assert(c.usable(spec_order_at(1)));
        } else {
            assert(c.usable(spec_order_at(0)));
        }
    } else if c.p is Some {
        assert(c.usable(spec_order_at(2)));
    } else if c.o is Some {
        assert(c.usable(spec_order_at(4)));
    } else {
        assert(c.usable(spec_order_at(0)));
    }
}

/// A transient query object holding up to three optional exact-match
/// values, one per field role. Not persisted.
#[derive(Debug)]
pub struct Criteria {
    pub subject: Option<String>,
    pub predicate: Option<String>,
    pub object: Option<String>,
}

impl View for Criteria {
    type V = CriteriaVal;

    open spec fn view(&self) -> CriteriaVal {
        CriteriaVal {
            s: match self.subject {
                Some(v) => Some(v@),
                None => None,
            },
            p: match self.predicate {
                Some(v) => Some(v@),
                None => None,
            },
            o: match self.object {
                Some(v) => Some(v@),
                None => None,
            },
        }
    }
}

impl Criteria {
    /// The requirement on the field of the given role.
    pub fn index(&self, property: Property) -> (r: &Option<String>)
        ensures
            r is Some <==> self@.bound(property),
            r matches Some(v) ==> self@.field(property) == Some(v@),
    {
        match property {
            Property::Subject => &self.subject,
            Property::Predicate => &self.predicate,
            Property::Object => &self.object,
        }
    }

    /// The catalogue positions of the orderings that can serve this binding,
    /// in catalogue order.
    pub fn usable_indices(&self) -> (r: UsableIndices)
        ensures
            r.wf(),
            r.criteria() == self@,
            r.pos() == 0,
    {
        UsableIndices {
            idx: 0,
            subject_bound: self.subject.is_some(),
            predicate_bound: self.predicate.is_some(),
            object_bound: self.object.is_some(),
            criteria: Ghost(self@),
        }
    }

    /// The scan prefix of this binding under the given ordering: each bound
    /// field's bytes with its separator, in the ordering's positions, and
    /// one extra separator marking the exact-value boundary.
    pub fn prefix(&self, order: &PropertyOrder) -> (r: Vec<u8>)
        ensures
            r@ == self@.spec_prefix(*order),
    {
        let ghost t0 = if self@.bound(order.0) {
            seq![field_bytes(self@.field(order.0)->Some_0)]
        } else {
            Seq::<Seq<u8>>::empty()
        };
        let ghost t1 = if self@.bound(order.1) {
            seq![field_bytes(self@.field(order.1)->Some_0)]
        } else {
            Seq::<Seq<u8>>::empty()
        };
        let ghost t2 = if self@.bound(order.2) {
            seq![field_bytes(self@.field(order.2)->Some_0)]
        } else {
            Seq::<Seq<u8>>::empty()
        };
        let mut buf: Vec<u8> = Vec::new();
        if let Some(a) = self.index(order.0) {
            append_field(&mut buf, a.as_str());
        }
        proof {
            lemma_joined1(field_bytes(self@.field(order.0)->Some_0));
            assert(buf@ =~= joined(t0));
        }
        if let Some(b) = self.index(order.1) {
            append_field(&mut buf, b.as_str());
        }
        proof {
            lemma_joined1(field_bytes(self@.field(order.1)->Some_0));
            lemma_joined_concat(t0, t1);
            assert(buf@ =~= joined(t0 + t1));
        }
        if let Some(c) = self.index(order.2) {
            append_field(&mut buf, c.as_str());
        }
        proof {
            lemma_joined1(field_bytes(self@.field(order.2)->Some_0));
            lemma_joined_concat(t0 + t1, t2);
            assert(buf@ =~= joined(t0 + t1 + t2));
            assert(t0 + t1 + t2 == self@.bound_tokens(*order));
        }
        buf.push(SEP);
        proof {
            assert(buf@ =~= self@.spec_prefix(*order));
        }
        buf
    }
}

/// Fluent construction of a Criteria: chain zero or more of `subject`,
/// `predicate`, `object`, then `build`.
#[derive(Debug)]
pub struct CriteriaBuilder {
    subject: Option<String>,
    predicate: Option<String>,
    object: Option<String>,
}

impl View for CriteriaBuilder {
    type V = CriteriaVal;

    closed spec fn view(&self) -> CriteriaVal {
        CriteriaVal {
            s: match self.subject {
                Some(v) => Some(v@),
                None => None,
            },
            p: match self.predicate {
                Some(v) => Some(v@),
                None => None,
            },
            o: match self.object {
                Some(v) => Some(v@),
                None => None,
            },
        }
    }
}

impl Default for CriteriaBuilder {
    /// The builder with no role bound.
    fn default() -> (r: Self)
        ensures
            r@ == (CriteriaVal { s: None, p: None, o: None }),
    {
        CriteriaBuilder { subject: None, predicate: None, object: None }
    }
}

impl CriteriaBuilder {
    /// Requires the subject field to equal the given value.
    pub fn subject(self, subject: String) -> (r: Self)
        ensures
            r@ == (CriteriaVal { s: Some(subject@), ..self@ }),
    {
        CriteriaBuilder { subject: Some(subject), ..self }
    }

    /// Requires the predicate field to equal the given value.
    pub fn predicate(self, predicate: String) -> (r: Self)
        ensures
            r@ == (CriteriaVal { p: Some(predicate@), ..self@ }),
    {
        CriteriaBuilder { predicate: Some(predicate), ..self }
    }

    /// Requires the object field to equal the given value.
    pub fn object(self, object: String) -> (r: Self)
        ensures
            r@ == (CriteriaVal { o: Some(object@), ..self@ }),
    {
        CriteriaBuilder { object: Some(object), ..self }
    }

    /// The finished criteria, with exactly the bindings chained so far.
    pub fn build(self) -> (r: Criteria)
        ensures
            r@ == self@,
    {
        let CriteriaBuilder { subject, predicate, object } = self;
        Criteria { subject, predicate, object }
    }
}

/// Lazily yields the catalogue positions of the orderings that can serve
/// one binding, in catalogue order.
pub struct UsableIndices {
    idx: usize,
    subject_bound: bool,
    predicate_bound: bool,
    object_bound: bool,
    criteria: Ghost<CriteriaVal>,
}

impl UsableIndices {
    /// The binding this iterator plans for.
    pub closed spec fn criteria(self) -> CriteriaVal {
        self.criteria@
    }

    /// The next catalogue position to consider.
    pub closed spec fn pos(self) -> int {
        self.idx as int
    }

    /// The flags mirror the binding's bound roles.
    pub closed spec fn wf(self) -> bool {
        &&& self.subject_bound == self.criteria@.bound(Property::Subject)
        &&& self.predicate_bound == self.criteria@.bound(Property::Predicate)
        &&& self.object_bound == self.criteria@.bound(Property::Object)
        &&& self.idx <= 6
    }

    fn bound_flag(&self, property: Property) -> (r: bool)
        requires
            self.wf(),
        ensures
            r == self.criteria().bound(property),
    {
        match property {
            Property::Subject => self.subject_bound,
            Property::Predicate => self.predicate_bound,
            Property::Object => self.object_bound,
        }
    }

    fn usable_at(&self, i: usize) -> (r: bool)
        requires
            self.wf(),
            i < 6,
        ensures
            r == self.criteria().usable(spec_order_at(i as int)),
    {
        let ord = order_at(i);
        let b0 = self.bound_flag(ord.0);
        let b1 = self.bound_flag(ord.1);
        let b2 = self.bound_flag(ord.2);
        (!b1 || b0) && (!b2 || b1)
    }

    /// The next catalogue position whose ordering can serve the binding, in
    /// catalogue order; None when no further one can.
    pub fn next(&mut self) -> (r: Option<usize>)
        requires
            old(self).wf(),
        ensures
            final(self).wf(),
            final(self).criteria() == old(self).criteria(),
            match r {
                Some(i) => {
                    &&& old(self).pos() <= i < 6
                    &&& old(self).criteria().usable(spec_order_at(i as int))
                    &&& forall|j: int|
                        old(self).pos() <= j < i ==> !old(self).criteria().usable(spec_order_at(j))
                    &&& final(self).pos() == i + 1
                },
                None => {
                    &&& forall|j: int|
                        old(self).pos() <= j < 6 ==> !old(self).criteria().usable(spec_order_at(j))
                    &&& final(self).pos() == 6
                },
            },
    {
        while self.idx < 6
            invariant
                self.wf(),
                self.criteria@ == old(self).criteria(),
                old(self).pos() <= self.idx as int <= 6,
                forall|j: int|
                    old(self).pos() <= j < self.idx as int ==> !old(self).criteria().usable(
                        spec_order_at(j),
                    ),
            decreases 6 - self.idx,
        {
            let i = self.idx;
            self.idx = i + 1;
            if self.usable_at(i) {
                return Some(i);
            }
        }
        None
    }
}

} // verus!
