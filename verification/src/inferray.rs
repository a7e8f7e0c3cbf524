//! In-memory structures that hold the RDF graph.

pub(crate) mod dictionary;
pub(crate) mod graph;
pub(crate) mod store;

pub use self::dictionary::NodeDictionary;
pub use self::graph::{InfGraph, TermTriple};
pub use self::store::{Chunk, TripleStore};
