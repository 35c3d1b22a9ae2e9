//! End-to-end behaviour of the index over an in-memory ordered key-value
//! substrate: six BTreeMap namespaces stand in for the storage collaborator,
//! applying the batches and bounded scans the library computes.

use std::collections::BTreeMap;

use hexastore::store::{decode_entry, put_batch, scan_bounds};
use hexastore::{Criteria, CriteriaBuilder, Triple};

type MemStore = Vec<BTreeMap<Vec<u8>, Vec<u8>>>;

fn mem_new() -> MemStore {
    (0..6).map(|_| BTreeMap::new()).collect()
}

fn mem_put(store: &mut MemStore, t: &Triple) {
    for (i, (key, value)) in put_batch(t).into_iter().enumerate() {
        store[i].insert(key, value);
    }
}

fn mem_get(store: &MemStore, c: &Criteria) -> Vec<Triple> {
    let (i, lo, hi) = scan_bounds(c);
    store[i]
        .range(lo..hi)
        .map(|(_, v)| decode_entry(v).expect("stored value decodes"))
        .collect()
}

fn t(s: &str, p: &str, o: &str) -> Triple {
    Triple::new(s.to_string(), p.to_string(), o.to_string())
}

fn all_three(tr: &Triple) -> Criteria {
    CriteriaBuilder::default()
        .subject(tr.subject.clone())
        .predicate(tr.predicate.clone())
        .object(tr.object.clone())
        .build()
}

#[test]
fn point_lookup_returns_exactly_the_put_triple() {
    let mut store = mem_new();
    mem_put(&mut store, &t("a", "b", "c"));
    mem_put(&mut store, &t("a", "b", "c2"));
    mem_put(&mut store, &t("", "", ""));
    for tr in [t("a", "b", "c"), t("a", "b", "c2"), t("", "", "")] {
        let results = mem_get(&store, &all_three(&tr));
        assert_eq!(results, vec![tr]);
    }
}

#[test]
fn single_field_queries_include_the_triple() {
    let mut store = mem_new();
    let tr = t("earth", "orbits", "sun");
    mem_put(&mut store, &tr);
    let by_subject = CriteriaBuilder::default().subject("earth".to_string()).build();
    let by_predicate = CriteriaBuilder::default().predicate("orbits".to_string()).build();
    let by_object = CriteriaBuilder::default().object("sun".to_string()).build();
    for c in [by_subject, by_predicate, by_object] {
        assert!(mem_get(&store, &c).contains(&tr));
    }
}

#[test]
fn planner_finds_an_ordering_for_every_subset() {
    let v = || "v".to_string();
    let subsets: Vec<(bool, bool, bool)> = (0..8)
        .map(|m| (m & 4 != 0, m & 2 != 0, m & 1 != 0))
        .collect();
    for (bs, bp, bo) in subsets {
        let mut b = CriteriaBuilder::default();
        if bs {
            b = b.subject(v());
        }
        if bp {
            b = b.predicate(v());
        }
        if bo {
            b = b.object(v());
        }
        let c = b.build();
        let mut usable = c.usable_indices();
        assert!(usable.next().is_some());
    }
}

#[test]
fn usable_orderings_per_bound_set_size() {
    fn usable_of(c: &Criteria) -> Vec<usize> {
        let mut it = c.usable_indices();
        let mut found = Vec::new();
        while let Some(i) = it.next() {
            found.push(i);
        }
        found
    }
    // no role bound and every role bound: all six orderings serve
    let none = CriteriaBuilder::default().build();
    assert_eq!(usable_of(&none), vec![0, 1, 2, 3, 4, 5]);
    let all = CriteriaBuilder::default()
        .subject("s".to_string())
        .predicate("p".to_string())
        .object("o".to_string())
        .build();
    assert_eq!(usable_of(&all), vec![0, 1, 2, 3, 4, 5]);
    // one role bound: exactly the two orderings that lead with it
    let s = CriteriaBuilder::default().subject("s".to_string()).build();
    assert_eq!(usable_of(&s), vec![0, 1]);
    let o = CriteriaBuilder::default().object("o".to_string()).build();
    assert_eq!(usable_of(&o), vec![4, 5]);
    // two roles bound: exactly the two orderings that lead with both
    let sp = CriteriaBuilder::default()
        .subject("s".to_string())
        .predicate("p".to_string())
        .build();
    assert_eq!(usable_of(&sp), vec![0, 3]);
}

#[test]
fn planner_tie_break_is_first_usable_in_catalogue_order() {
    let v = || "v".to_string();
    // (subject, predicate, object) bound -> expected catalogue position
    let cases: [((bool, bool, bool), usize); 8] = [
        ((false, false, false), 0),
        ((true, false, false), 0),
        ((false, true, false), 2),
        ((false, false, true), 4),
        ((true, true, false), 0),
        ((true, false, true), 1),
        ((false, true, true), 2),
        ((true, true, true), 0),
    ];
    for ((bs, bp, bo), expected) in cases {
        let mut b = CriteriaBuilder::default();
        if bs {
            b = b.subject(v());
        }
        if bp {
            b = b.predicate(v());
        }
        if bo {
            b = b.object(v());
        }
        let c = b.build();
        let (idx, _, _) = scan_bounds(&c);
        assert_eq!(idx, expected);
        let mut usable = c.usable_indices();
        assert_eq!(usable.next(), Some(expected));
    }
}

#[test]
fn exact_boundary_never_matches_a_value_prefix() {
    let mut store = mem_new();
    mem_put(&mut store, &t("a", "b", "c"));
    mem_put(&mut store, &t("a", "b", "c2"));
    let by_c = CriteriaBuilder::default().object("c".to_string()).build();
    assert_eq!(mem_get(&store, &by_c), vec![t("a", "b", "c")]);
    let by_c2 = CriteriaBuilder::default().object("c2".to_string()).build();
    assert_eq!(mem_get(&store, &by_c2), vec![t("a", "b", "c2")]);
}

#[test]
fn multiplicity_returns_each_match_once_in_ordering_sequence() {
    let mut store = mem_new();
    for tr in [
        t("a", "b", "c"),
        t("a", "b", "c2"),
        t("d", "b", "c"),
        t("e", "b", "f"),
        t("e", "b", "c2"),
    ] {
        mem_put(&mut store, &tr);
    }
    let by_c = CriteriaBuilder::default().object("c".to_string()).build();
    // the chosen ordering is object-subject-predicate, so results come
    // object-major, then by subject
    assert_eq!(mem_get(&store, &by_c), vec![t("a", "b", "c"), t("d", "b", "c")]);
}

#[test]
fn putting_the_same_triple_twice_changes_no_result_set() {
    let mut once = mem_new();
    let mut twice = mem_new();
    let tr = t("a", "b", "c");
    mem_put(&mut once, &tr);
    mem_put(&mut twice, &tr);
    mem_put(&mut twice, &tr);
    assert_eq!(once, twice);
    let by_b = CriteriaBuilder::default().predicate("b".to_string()).build();
    assert_eq!(mem_get(&twice, &by_b), vec![tr]);
}

#[test]
fn empty_criteria_returns_every_distinct_triple_once() {
    let triples = [
        t("a", "b", "c"),
        t("a", "b", "c2"),
        t("d", "b", "c"),
        t("e", "b", "f"),
        t("e", "b", "c2"),
    ];
    let mut forward = mem_new();
    for tr in triples.iter() {
        mem_put(&mut forward, tr);
    }
    let mut backward = mem_new();
    for tr in triples.iter().rev() {
        mem_put(&mut backward, tr);
    }
    // one duplicate put on top
    mem_put(&mut backward, &t("d", "b", "c"));
    let everything = CriteriaBuilder::default().build();
    let from_forward = mem_get(&forward, &everything);
    assert_eq!(from_forward.len(), 5);
    for tr in triples.iter() {
        assert_eq!(from_forward.iter().filter(|r| **r == *tr).count(), 1);
    }
    assert_eq!(from_forward, mem_get(&backward, &everything));
}

#[test]
fn key_bytes_are_fields_each_followed_by_separator() {
    let tr = t("a", "b", "c");
    let batch = put_batch(&tr);
    assert_eq!(batch.len(), 6);
    // catalogue position 0 orders the key subject-predicate-object
    assert_eq!(batch[0].0, b"a\xFFb\xFFc\xFF".to_vec());
    // catalogue position 4 orders the key object-subject-predicate
    assert_eq!(batch[4].0, b"c\xFFa\xFFb\xFF".to_vec());
    // all six projections share one serialized value
    for (_, value) in batch.iter() {
        assert_eq!(*value, batch[0].1);
    }
}

#[test]
fn scan_bounds_are_prefix_without_and_with_boundary_separator() {
    let c = CriteriaBuilder::default().object("c".to_string()).build();
    let (idx, lo, hi) = scan_bounds(&c);
    assert_eq!(idx, 4);
    assert_eq!(lo, b"c\xFF".to_vec());
    assert_eq!(hi, b"c\xFF\xFF".to_vec());
    let empty = CriteriaBuilder::default().build();
    let (idx, lo, hi) = scan_bounds(&empty);
    assert_eq!(idx, 0);
    assert_eq!(lo, Vec::<u8>::new());
    assert_eq!(hi, vec![0xFF]);
}

#[test]
fn values_round_trip_and_are_not_raw_fields() {
    let tr = t("a", "b", "c");
    let batch = put_batch(&tr);
    let value = &batch[0].1;
    assert_eq!(decode_entry(value).expect("round trip"), tr);
    // the serialized form frames each field; it is not the bare bytes
    assert_ne!(*value, b"abc".to_vec());
    assert_ne!(*value, batch[0].0);
}

#[test]
fn multibyte_fields_round_trip_and_query_exactly() {
    let mut store = mem_new();
    let tr = t("caf\u{e9}", "likes", "\u{65e5}\u{672c}\u{8a9e}");
    mem_put(&mut store, &tr);
    mem_put(&mut store, &t("caf", "likes", "tea"));
    assert_eq!(mem_get(&store, &all_three(&tr)), vec![tr.clone()]);
    let by_subject = CriteriaBuilder::default().subject("caf\u{e9}".to_string()).build();
    assert_eq!(mem_get(&store, &by_subject), vec![tr]);
    let by_caf = CriteriaBuilder::default().subject("caf".to_string()).build();
    assert_eq!(mem_get(&store, &by_caf), vec![t("caf", "likes", "tea")]);
}

#[test]
fn decode_reports_corruption_instead_of_skipping() {
    assert!(decode_entry(&[0x01, 0x02, 0x03]).is_err());
}

#[test]
fn empty_field_behind_bound_prefix_is_hidden_from_partial_scans() {
    // an empty field that directly follows the bound prefix makes the
    // projection's key equal the scan's exclusive upper bound
    let mut store = mem_new();
    let tr = t("a", "", "c");
    mem_put(&mut store, &tr);
    let by_subject = CriteriaBuilder::default().subject("a".to_string()).build();
    assert_eq!(mem_get(&store, &by_subject), Vec::<Triple>::new());
    // the point lookup still finds it
    assert_eq!(mem_get(&store, &all_three(&tr)), vec![tr]);
}
