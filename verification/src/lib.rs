//! Runtime value layer of a distributed graph query engine: the closed set of
//! entry values that flow through a dataflow pipeline (vertices, edges, paths,
//! scalars, pairs, collections, intersection results), their tag-gated
//! equality, ordering and hashing, their binary wire codec, and the typed
//! property value model of the graph store (cross-type numeric comparison,
//! schema-driven transforms, and two binary storage layouts).

use vstd::prelude::*;

pub mod be;
pub mod fbits;
pub mod object;
pub mod property;
pub mod prop_codec;
pub mod text;
pub mod parse;
pub mod entry;
pub mod entry_codec;
pub mod laws;
pub mod convert;

verus! {

/// Closed tag over every kind of runtime value. Every concrete variant
/// reports exactly one tag, and all polymorphic operations (codec, equality,
/// ordering, hashing) dispatch on it.
#[derive(Debug, PartialEq, Eq, Structural, Clone, Copy)]
pub enum EntryType {
    /// Graph vertex
    Vertex,
    /// Graph edge
    Edge,
    /// Graph path
    Path,
    /// Generic scalar value (primitives, strings, blobs, vectors, maps)
    Object,
    /// Ordered pair of two entries
    Pair,
    /// Result of a set-intersection operator (two sub-forms)
    Intersection,
    /// Ordered sequence of entries
    Collection,
    /// Absent graph element
    Null,
}

} // verus!
