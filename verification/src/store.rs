//! Store orchestration: the six-way write batch of one triple, the scan
//! bounds of one read, the serialized value shared by all six projections,
//! and the model of the ordered key-value substrate that the correctness
//! theorems speak of. The substrate itself is a collaborator: callers apply
//! the batches and scans computed here to it.

use vstd::prelude::*;
use crate::triple::{Triple, TripleVal};
use crate::hexagon::{spec_order_at, order_at, order_pos, lemma_order_is_permutation};
use crate::criteria::{Criteria, CriteriaVal, lemma_planner_total};
use crate::codec::{
    SEP, field_bytes, joined, key_tokens, key_of, in_range, sep_free, tokens_sep_free,
    lemma_field_bytes_sep_free, lemma_field_bytes_injective, lemma_joined_concat,
    lemma_joined_len, lemma_joined_prefix, lemma_range_iff_prefix,
};

verus! {

/// What bincode's default-configuration codec returns for the three fields
/// of one triple. Deterministic: a function of the field values alone.
pub uninterp spec fn triple_encoding(s: Seq<char>, p: Seq<char>, o: Seq<char>) -> Seq<u8>;

/// A stored row failed to decode back into a triple: corruption, or a codec
/// mismatch between writer and reader.
#[derive(Clone, Copy, Debug, PartialEq, Eq, Structural)]
pub struct DecodeError;

impl Triple {
    /// The serialized value stored, unchanged, under all six keys of this
    /// triple: the original field order, never the reordered one.
    ///
    /// Relies on bincode::serialize with its default configuration:
    /// deterministic and a function of the three field values alone. On a
    /// tuple of string slices the default serializer has no failing path:
    /// it imposes no size limit, and a byte buffer cannot refuse a write.
    #[verifier::external_body]
    pub(crate) fn to_value(&self) -> (r: Vec<u8>)
        ensures
            r@ == triple_encoding(self.subject@, self.predicate@, self.object@),
    {
        bincode::serialize(
            &(self.subject.as_str(), self.predicate.as_str(), self.object.as_str()),
        ).expect("serialized triple")
    }

    /// Relies on bincode::deserialize with its default configuration: it
    /// inverts bincode::serialize, so a value that serialization produced
    /// for three fields decodes to exactly those three fields.
    #[verifier::external_body]
    fn decode_value(bytes: &[u8]) -> (r: Result<Triple, DecodeError>)
        ensures
            forall|s: Seq<char>, p: Seq<char>, o: Seq<char>|
                bytes@ == #[trigger] triple_encoding(s, p, o) ==> r is Ok && r->Ok_0@.s == s
                    && r->Ok_0@.p == p && r->Ok_0@.o == o,
    {
        match bincode::deserialize::<(String, String, String)>(bytes) {
            Ok((subject, predicate, object)) => Ok(Triple { subject, predicate, object }),
            Err(_) => Err(DecodeError),
        }
    }
}

/// Decodes one scanned row's value back into the triple that was put, or
/// reports the corruption explicitly rather than skipping the row.
pub fn decode_entry(value: &[u8]) -> (r: Result<Triple, DecodeError>)
    ensures
        forall|s: Seq<char>, p: Seq<char>, o: Seq<char>|
            value@ == #[trigger] triple_encoding(s, p, o) ==> r is Ok && r->Ok_0@.s == s
                && r->Ok_0@.p == p && r->Ok_0@.o == o,
{
    Triple::decode_value(value)
}

/// The key of a triple's projection into the namespace at catalogue
/// position `i`: its fields arranged in that ordering, then delimited.
pub open spec fn ns_key(t: TripleVal, i: int) -> Seq<u8> {
    let ord = spec_order_at(i);
    key_of(t.field(ord.0), t.field(ord.1), t.field(ord.2))
}

/// One atomic write: the six (key, value) pairs of one triple, the pair at
/// position `i` meant for the namespace at catalogue position `i`, all six
/// sharing one serialized value. Callers submit them as one atomic batch:
/// either all six projections become durable or none does.
pub fn put_batch(triple: &Triple) -> (r: Vec<(Vec<u8>, Vec<u8>)>)
    ensures
        r@.len() == 6,
        forall|i: int|
            0 <= i < 6 ==> (#[trigger] r@[i]).0@ == ns_key(triple@, i) && r@[i].1@
                == triple_encoding(triple@.s, triple@.p, triple@.o),
{
    let mut batch: Vec<(Vec<u8>, Vec<u8>)> = Vec::new();
    let mut i: usize = 0;
    while i < 6
        invariant
            i <= 6,
            batch@.len() == i as int,
            forall|j: int|
                0 <= j < i as int ==> (#[trigger] batch@[j]).0@ == ns_key(triple@, j)
                    && batch@[j].1@ == triple_encoding(triple@.s, triple@.p, triple@.o),
        decreases 6 - i,
    {
        let ord = order_at(i);
        let reordered = triple.reorder(&ord);
        let key = reordered.to_key();
        let value = triple.to_value();
        batch.push((key, value));
        i = i + 1;
    }
    batch
}

/// The start key of the scan that serves the binding: the joined bound
/// tokens, without the boundary separator. Inclusive.
pub open spec fn scan_lo(c: CriteriaVal) -> Seq<u8> {
    joined(c.bound_tokens(spec_order_at(c.plan())))
}

/// The upper bound of the scan: the full prefix, boundary separator
/// included. Exclusive.
pub open spec fn scan_hi(c: CriteriaVal) -> Seq<u8> {
    scan_lo(c) + seq![SEP]
}

/// The plan of one read: the catalogue position of the ordering the planner
/// picked, the scan's inclusive start key, and its exclusive upper bound.
pub fn scan_bounds(criteria: &Criteria) -> (r: (usize, Vec<u8>, Vec<u8>))
    ensures
        r.0 as int == criteria@.plan(),
        0 <= criteria@.plan() < 6,
        r.1@ == scan_lo(criteria@),
        r.2@ == scan_hi(criteria@),
{
    let mut it = criteria.usable_indices();
    let next = it.next();
    proof {
        lemma_planner_total(criteria@);
    }
    let idx = match next {
        Some(i) => i,
        None => {
            proof {
                assert(false);
            }
            0
        },
    };
    let ord = order_at(idx);
    let upper = criteria.prefix(&ord);
    let n = upper.len() - 1;
    let mut start: Vec<u8> = Vec::new();
    let mut j: usize = 0;
    assert(start@ =~= upper@.take(0));
    while j < n
        invariant
            j <= n,
            n == upper@.len() - 1,
            upper@ == scan_hi(criteria@),
            start@ == upper@.take(j as int),
        decreases n - j,
    {
        start.push(upper[j]);
        assert(upper@.take(j + 1) =~= upper@.take(j as int).push(upper@[j as int]));
        j = j + 1;
    }
    proof {
        assert(start@ =~= scan_lo(criteria@));
    }
    (idx, start, upper)
}

/// One namespace of the substrate, as a map from byte key to byte value.
pub type NsModel = Map<Seq<u8>, Seq<u8>>;

/// The six namespaces, by catalogue position.
pub type StoreModel = Map<int, NsModel>;

/// Every entry of the namespace at catalogue position `i` is the projection
/// of some triple: its key that triple's reordered delimited key, its value
/// the triple's shared serialized form. Writes preserve this; it is how a
/// scanned row's bytes are known to decode.
pub open spec fn ns_wf(ns: NsModel, i: int) -> bool {
    forall|k: Seq<u8>| #[trigger]
        ns.dom().contains(k) ==> exists|t: TripleVal|
            ns_key(t, i) == k && ns[k] == triple_encoding(t.s, t.p, t.o)
}

/// The store holds its six namespaces and each is well formed.
pub open spec fn store_wf(m: StoreModel) -> bool {
    &&& forall|i: int| 0 <= i < 6 ==> m.dom().contains(i)
    &&& forall|i: int| 0 <= i < 6 ==> ns_wf(#[trigger] m[i], i)
}

/// What one atomic committed write of a triple leaves: every namespace
/// gains, or overwrites in place, the triple's projection, all six sharing
/// one value.
pub open spec fn store_put(m: StoreModel, t: TripleVal) -> StoreModel {
    Map::new(
        |i: int| m.dom().contains(i),
        |i: int|
            if 0 <= i < 6 {
                m[i].insert(ns_key(t, i), triple_encoding(t.s, t.p, t.o))
            } else {
                m[i]
            },
    )
}

/// The keys a bounded forward scan of one namespace visits: exactly those
/// in the half-open range, in lexicographic byte order.
pub open spec fn scan_keys(ns: NsModel, lo: Seq<u8>, hi: Seq<u8>) -> Set<Seq<u8>> {
    ns.dom().filter(|k: Seq<u8>| in_range(k, lo, hi))
}

/// Whether the planned scan can see the triple's projection. With all three
/// roles bound it always can. With fewer, the field at the ordering's first
/// unbound position must be nonempty: an empty field there makes the
/// projection's key equal the scan's exclusive upper bound, so the scan
/// stops just short of it.
pub open spec fn scan_sees(c: CriteriaVal, t: TripleVal) -> bool {
    c.bound_count() == 3 || t.field(order_pos(spec_order_at(c.plan()), c.bound_count())).len() > 0
}

/// Exactness of one planned scan: the key of a triple's projection into the
/// chosen namespace lies inside the scan range exactly when the triple
/// carries every bound value and the scan can see it. Byte-prefix
/// comparison never mistakes one field value for a proper prefix of
/// another.
pub proof fn lemma_scan_matches(c: CriteriaVal, t: TripleVal)
    ensures
        in_range(ns_key(t, c.plan()), scan_lo(c), scan_hi(c)) <==> (c.matches(t) && scan_sees(
            c,
            t,
        )),
{
    let i = c.plan();
    lemma_planner_total(c);
    let ord = spec_order_at(i);
    lemma_order_is_permutation(i);
    let fs = key_tokens(t.field(ord.0), t.field(ord.1), t.field(ord.2));
    let xs = c.bound_tokens(ord);
    lemma_field_bytes_sep_free(t.field(ord.0));
    lemma_field_bytes_sep_free(t.field(ord.1));
    lemma_field_bytes_sep_free(t.field(ord.2));
    if c.bound(ord.0) {
        lemma_field_bytes_sep_free(c.field(ord.0)->Some_0);
    }
    if c.bound(ord.1) {
        lemma_field_bytes_sep_free(c.field(ord.1)->Some_0);
    }
    if c.bound(ord.2) {
        lemma_field_bytes_sep_free(c.field(ord.2)->Some_0);
    }
    let b0 = c.bound(ord.0);
    let b1 = c.bound(ord.1);
    let b2 = c.bound(ord.2);
    let k = c.bound_count();
    assert(c.usable(ord));
    if b0 && b1 && b2 {
        assert(xs =~= seq![
            field_bytes(c.field(ord.0)->Some_0),
            field_bytes(c.field(ord.1)->Some_0),
            field_bytes(c.field(ord.2)->Some_0),
        ]);
        assert(k == 3);
    } else if b0 && b1 {
        assert(xs =~= seq![
            field_bytes(c.field(ord.0)->Some_0),
            field_bytes(c.field(ord.1)->Some_0),
        ]);
        assert(k == 2);
    } else if b0 {
        assert(xs =~= seq![field_bytes(c.field(ord.0)->Some_0)]);
        assert(k == 1);
    } else {
        assert(!b1 && !b2);
        assert(xs =~= Seq::<Seq<u8>>::empty());
        assert(k == 0);
    }
    assert(xs.len() == k);
    assert(tokens_sep_free(xs));
    assert(tokens_sep_free(fs));
    lemma_range_iff_prefix(joined(xs), joined(fs));
    lemma_joined_prefix(xs, fs);
    assert(fs =~= fs.subrange(0, k) + fs.skip(k));
    lemma_joined_concat(fs.subrange(0, k), fs.skip(k));
    lemma_joined_len(fs.skip(k));

    // the tokens agree on the first k positions exactly when the triple
    // carries every bound value
    assert((xs == fs.subrange(0, k)) <==> c.matches(t)) by {
        if xs == fs.subrange(0, k) {
            if b0 {
                assert(xs[0] == fs[0]);
                lemma_field_bytes_injective(c.field(ord.0)->Some_0, t.field(ord.0));
            }
            if b1 {
                assert(xs[1] == fs[1]);
                lemma_field_bytes_injective(c.field(ord.1)->Some_0, t.field(ord.1));
            }
            if b2 {
                assert(xs[2] == fs[2]);
                lemma_field_bytes_injective(c.field(ord.2)->Some_0, t.field(ord.2));
            }
        }
        if c.matches(t) {
            assert(xs =~= fs.subrange(0, k));
        }
    }

    // the byte after the prefix, if any, is the separator exactly when the
    // field at the first unbound position is empty
    if k < 3 {
        let rest = fs.skip(k);
        assert(rest.len() > 0);
        assert(rest[0] == fs[k]);
        assert(fs[k] == field_bytes(t.field(order_pos(ord, k))));
        lemma_field_bytes_nonempty(t.field(order_pos(ord, k)));
        if xs == fs.subrange(0, k) {
            assert(joined(fs) == joined(xs) + joined(rest));
            assert(joined(fs).len() > joined(xs).len());
            assert(joined(fs)[joined(xs).len() as int] == joined(rest)[0]);
            assert(sep_free(fs[k]));
        }
    } else {
        if xs == fs.subrange(0, k) {
            assert(fs.skip(3) =~= Seq::<Seq<u8>>::empty());
            assert(joined(fs) == joined(xs));
        }
    }
    assert(ns_key(t, i) == joined(fs));
    assert(scan_lo(c) == joined(xs));
}

/// A field's bytes are empty exactly when the field is.
pub proof fn lemma_field_bytes_nonempty(s: Seq<char>)
    ensures
        field_bytes(s).len() == 0 <==> s.len() == 0,
{
    if s.len() > 0 {
        assert(vstd::utf8::encode_scalar(s[0] as u32).len() > 0);
        assert(field_bytes(s).len() > 0);
    }
}

} // verus!
