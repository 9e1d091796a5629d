//! Loom core: the behavioural truth of the design system — machines,
//! reification tables, tokens, motion semantics and their oracles — as a
//! verified library.
use vstd::prelude::*;

pub mod bundle;
pub mod component;
pub mod decider;
pub mod graph;
pub mod ingest;
pub mod instance;
pub mod load_gate;
pub mod machine;
pub mod mode_contracts;
pub mod motion;
pub mod ontology;
pub mod order;
pub mod provenance;
pub mod rdf;
pub mod reification_table;
pub mod run;
pub mod shacl;
pub mod sparql;
pub mod text;
pub mod tokens;

verus! {
} // verus!
