//! Searchable encrypted records: attribute flattening and key descriptors, chunking of
//! encrypted results, and resolution of query predicates to registered indexes.
pub mod attrs;
pub mod chunk;
pub mod error;
pub mod flatten;
pub mod key;
pub mod query;
