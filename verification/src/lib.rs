//! An in-memory forward-chaining RDF reasoner.
//!
//! The reasoner ingests a set of RDF triples (terms are held as strings),
//! computes the triples entailed by a chosen rule profile (RDFS, rho-df,
//! or RDFS-Plus), and exposes the saturated graph through a term-indexed
//! query interface.
//!
//! Terms are interned by the [`NodeDictionary`], which assigns compact
//! integer ids split into two half-spaces: property ids below
//! [`START_INDEX`](utils::START_INDEX), resource ids above it.  Integer
//! triples live in a [`TripleStore`], one sorted [`Chunk`] of
//! (subject, object) pairs per predicate.  Saturation runs transitive
//! closures over the schema predicates, applies the profile's rules to a
//! fixed point, and optionally injects the axiomatic triples and the
//! finalize pass.  The [`InfGraph`] facade wires the pieces together.

mod closure;
mod inferray;
mod rules;
mod utils;

pub use closure::graph_tc;
pub use inferray::{Chunk, InfGraph, NodeDictionary, TermTriple, TripleStore};
pub use rules::{ClosureProfile, FixPointRuleSet, RuleId, RuleProfile};
pub use utils::{bucket_sort_pairs, first_pair, merge_sort, Pair, Triple};
