//! Induction of interpretable classification rules: a disjunction-of-selectors
//! clause algebra over typed attribute domains, a rejectability graph over the
//! negative examples, and an ant-colony clique search that drains the graph,
//! one clause per extracted clique.

pub mod aco;
pub mod attr_sets;
pub mod config;
pub mod dataset;
pub mod graph;
pub mod laws;
pub mod rejectability;
pub mod rng;
pub mod semantics;
pub mod solve;

pub use attr_sets::AttributeValuesSet;
pub use attr_sets::AttributeValuesSetList;
