//! A hexastore: an index for subject-predicate-object facts that answers
//! exact-match queries on any combination of the three fields by storing
//! each fact under all six permutations of its fields, each permutation in
//! its own namespace of an ordered key-value substrate.
//!
//! This crate holds the indexing logic: the catalogue of six orderings, the
//! byte-level key and prefix codec, the planner that picks an ordering for a
//! partial query, and the computation of the six-way write batch and of the
//! scan bounds of a read. The ordered key-value substrate itself is a
//! collaborator that callers supply; they apply the batches and scans this
//! crate computes.

pub mod triple;
pub mod hexagon;
pub mod codec;
pub mod criteria;
pub mod store;
pub mod laws;

pub use triple::Property;
pub use triple::Triple;
pub use triple::ReorderedTriple;
pub use triple::PropertyOrder;
pub use criteria::Criteria;
pub use criteria::CriteriaBuilder;
pub use criteria::UsableIndices;
pub use store::DecodeError;
