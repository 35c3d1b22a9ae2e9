//! The laws of the store: what a committed write makes true of every later
//! planned scan, stated over the store model and proved once for all
//! triples and bindings.

use vstd::prelude::*;
use crate::triple::{Property, TripleVal};
use crate::hexagon::{spec_order_at, order_pos, lemma_order_is_permutation};
use crate::criteria::{CriteriaVal, lemma_planner_total};
use crate::codec::{
    key_tokens, tokens_sep_free, lemma_field_bytes_sep_free, lemma_field_bytes_injective,
    lemma_joined_prefix,
};
use crate::store::{
    StoreModel, ns_key, ns_wf, store_wf, store_put, scan_keys, scan_lo, scan_hi, scan_sees,
    triple_encoding, lemma_scan_matches,
};

verus! {

/// Distinct triples never share a projection key in any namespace: the key
/// determines the triple.
pub proof fn lemma_ns_key_injective(t1: TripleVal, t2: TripleVal, i: int)
    requires
        0 <= i < 6,
        ns_key(t1, i) == ns_key(t2, i),
    ensures
        t1 == t2,
{
    let ord = spec_order_at(i);
    lemma_order_is_permutation(i);
    let f1 = key_tokens(t1.field(ord.0), t1.field(ord.1), t1.field(ord.2));
    let f2 = key_tokens(t2.field(ord.0), t2.field(ord.1), t2.field(ord.2));
    lemma_field_bytes_sep_free(t1.field(ord.0));
    lemma_field_bytes_sep_free(t1.field(ord.1));
    lemma_field_bytes_sep_free(t1.field(ord.2));
    lemma_field_bytes_sep_free(t2.field(ord.0));
    lemma_field_bytes_sep_free(t2.field(ord.1));
    lemma_field_bytes_sep_free(t2.field(ord.2));
    assert(tokens_sep_free(f1));
    assert(tokens_sep_free(f2));
    lemma_joined_prefix(f1, f2);
    assert(crate::codec::joined(f1).is_prefix_of(crate::codec::joined(f2)));
    assert(f1 =~= f2.subrange(0, 3));
    assert(f2.subrange(0, 3) =~= f2);
    lemma_field_bytes_injective(t1.field(ord.0), t2.field(ord.0));
    lemma_field_bytes_injective(t1.field(ord.1), t2.field(ord.1));
    lemma_field_bytes_injective(t1.field(ord.2), t2.field(ord.2));
    assert(t1 =~= t2);
}

/// A committed write preserves the store's well-formedness: the entry it
/// adds is itself a projection.
pub proof fn lemma_store_put_wf(m: StoreModel, t: TripleVal)
    requires
        store_wf(m),
    ensures
        store_wf(store_put(m, t)),
{
    let m1 = store_put(m, t);
    assert forall|i: int| 0 <= i < 6 implies ns_wf(#[trigger] m1[i], i) by {
        assert forall|k: Seq<u8>| #[trigger] m1[i].dom().contains(k) implies exists|t2: TripleVal|
            ns_key(t2, i) == k && m1[i][k] == triple_encoding(t2.s, t2.p, t2.o) by {
            if k == ns_key(t, i) {
                assert(ns_key(t, i) == k && m1[i][k] == triple_encoding(t.s, t.p, t.o));
            } else {
                assert(m[i].dom().contains(k));
                assert(ns_wf(m[i], i));
                let t2 = choose|t2: TripleVal|
                    ns_key(t2, i) == k && m[i][k] == triple_encoding(t2.s, t2.p, t2.o);
                assert(ns_key(t2, i) == k && m1[i][k] == triple_encoding(t2.s, t2.p, t2.o));
            }
        }
    }
}

/// Idempotence of writes: putting the same triple twice leaves the store,
/// and with it the result set of every query, unchanged.
pub proof fn lemma_put_idempotent(m: StoreModel, t: TripleVal)
    ensures
        store_put(store_put(m, t), t) == store_put(m, t),
{
    let m1 = store_put(m, t);
    let m2 = store_put(m1, t);
    assert forall|i: int| m2.dom().contains(i) implies #[trigger] m2[i] =~= m1[i] by {}
    assert(m2 =~~= m1);
}

/// Writes commute: the store after two committed writes does not depend on
/// their order, so the result of every query is independent of insertion
/// order.
pub proof fn lemma_put_commutes(m: StoreModel, t1: TripleVal, t2: TripleVal)
    ensures
        store_put(store_put(m, t1), t2) == store_put(store_put(m, t2), t1),
{
    let a = store_put(store_put(m, t1), t2);
    let b = store_put(store_put(m, t2), t1);
    assert forall|i: int| a.dom().contains(i) implies #[trigger] a[i] =~= b[i] by {
        if 0 <= i < 6 {
            if ns_key(t1, i) == ns_key(t2, i) {
                lemma_ns_key_injective(t1, t2, i);
            }
        }
    }
    assert(a =~~= b);
}

/// A point lookup finds exactly what was put: after a committed write of
/// `t`, the scan planned for the criteria binding all three of `t`'s fields
/// visits exactly one key — `t`'s projection — and that key holds `t`'s
/// serialized form, which decodes back to `t`.
pub proof fn lemma_point_lookup_exact(m: StoreModel, t: TripleVal)
    requires
        store_wf(m),
    ensures
        ({
            let c = CriteriaVal { s: Some(t.s), p: Some(t.p), o: Some(t.o) };
            let m1 = store_put(m, t);
            let i = c.plan();
            &&& scan_keys(m1[i], scan_lo(c), scan_hi(c)) == set![ns_key(t, i)]
            &&& m1[i][ns_key(t, i)] == triple_encoding(t.s, t.p, t.o)
        }),
{
    let c = CriteriaVal { s: Some(t.s), p: Some(t.p), o: Some(t.o) };
    let m1 = store_put(m, t);
    lemma_planner_total(c);
    let i = c.plan();
    lemma_store_put_wf(m, t);
    lemma_scan_matches(c, t);
    assert(c.matches(t));
    assert(c.bound_count() == 3);
    assert(scan_keys(m1[i], scan_lo(c), scan_hi(c)).contains(ns_key(t, i)));
    assert forall|key: Seq<u8>|
        #[trigger] scan_keys(m1[i], scan_lo(c), scan_hi(c)).contains(key) implies key == ns_key(
        t,
        i,
    ) by {
        assert(ns_wf(m1[i], i));
        assert(m1[i].dom().contains(key));
        let t2 = choose|t2: TripleVal|
            ns_key(t2, i) == key && m1[i][key] == triple_encoding(t2.s, t2.p, t2.o);
        lemma_scan_matches(c, t2);
        assert(c.matches(t2));
        assert(t2 =~= t);
    }
    assert(scan_keys(m1[i], scan_lo(c), scan_hi(c)) =~= set![ns_key(t, i)]);
}

/// The criteria that binds only the given role, to the given value.
pub open spec fn single_criteria(f: Property, v: Seq<char>) -> CriteriaVal {
    CriteriaVal {
        s: if f is Subject {
            Some(v)
        } else {
            None
        },
        p: if f is Predicate {
            Some(v)
        } else {
            None
        },
        o: if f is Object {
            Some(v)
        } else {
            None
        },
    }
}

/// Any single bound field finds the triple: after a committed write of `t`,
/// the scan planned for the criteria binding only role `f` to `t`'s value
/// visits `t`'s projection — provided `t`'s field at the chosen ordering's
/// second position is nonempty. When that field is empty, the projection's
/// key equals the scan's exclusive upper bound and the scan stops just
/// short of it.
pub proof fn lemma_single_field_included(m: StoreModel, t: TripleVal, f: Property)
    requires
        store_wf(m),
        t.field(order_pos(spec_order_at(single_criteria(f, t.field(f)).plan()), 1)).len() > 0,
    ensures
        ({
            let c = single_criteria(f, t.field(f));
            let i = c.plan();
            scan_keys(store_put(m, t)[i], scan_lo(c), scan_hi(c)).contains(ns_key(t, i))
        }),
{
    let c = single_criteria(f, t.field(f));
    lemma_planner_total(c);
    let i = c.plan();
    let m1 = store_put(m, t);
    assert(c.matches(t));
    assert(c.bound_count() == 1);
    assert(scan_sees(c, t));
    lemma_scan_matches(c, t);
    assert(m1[i].dom().contains(ns_key(t, i)));
}

/// The empty criteria scans the whole first namespace: it visits the
/// projection of every held triple whose subject is nonempty, and nothing
/// else; each visited key is one triple's projection, and distinct triples
/// never share one. Together with the commutativity of writes, the result
/// set does not depend on insertion order.
pub proof fn lemma_empty_criteria_complete(m: StoreModel, t: TripleVal)
    requires
        store_wf(m),
    ensures
        ({
            let c = CriteriaVal { s: None, p: None, o: None };
            let i = c.plan();
            &&& i == 0
            &&& (m[i].dom().contains(ns_key(t, i)) && t.s.len() > 0) ==> scan_keys(
                m[i],
                scan_lo(c),
                scan_hi(c),
            ).contains(ns_key(t, i))
            &&& forall|key: Seq<u8>|
                #[trigger] scan_keys(m[i], scan_lo(c), scan_hi(c)).contains(key)
                    ==> exists|t2: TripleVal|
                    ns_key(t2, i) == key && m[i][key] == triple_encoding(t2.s, t2.p, t2.o)
                        && t2.s.len() > 0
        }),
{
    let c = CriteriaVal { s: None, p: None, o: None };
    lemma_planner_total(c);
    assert(c.usable(spec_order_at(0)));
    let i = c.plan();
    assert(i == 0);
    assert(c.bound_count() == 0);
    lemma_scan_matches(c, t);
    assert forall|key: Seq<u8>|
        #[trigger] scan_keys(m[i], scan_lo(c), scan_hi(c)).contains(key) implies exists|
        t2: TripleVal,
    |
        ns_key(t2, i) == key && m[i][key] == triple_encoding(t2.s, t2.p, t2.o) && t2.s.len()
            > 0 by {
        assert(ns_wf(m[i], i));
        assert(m[i].dom().contains(key));
        let t2 = choose|t2: TripleVal|
            ns_key(t2, i) == key && m[i][key] == triple_encoding(t2.s, t2.p, t2.o);
        lemma_scan_matches(c, t2);
        assert(scan_sees(c, t2));
        assert(t2.s.len() > 0);
        assert(ns_key(t2, i) == key && m[i][key] == triple_encoding(t2.s, t2.p, t2.o)
            && t2.s.len() > 0);
    }
}

} // verus!
