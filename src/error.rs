//! Errors of the library.
use vstd::prelude::*;

verus! {

/// Failures in reading back decrypted attributes.
#[derive(PartialEq, Eq, Debug)]
pub enum SealError {
    /// A requested attribute is not among the decrypted ones; holds its descriptor.
    NotFound(String),
}

/// Failures of a query.
#[derive(PartialEq, Eq, Debug)]
pub enum QueryError {
    /// The query holds no predicate, or more than two.
    InvalidQuery(String),
    /// No registered index matches the queried fields; holds their names.
    UnresolvableQuery(String),
    /// The query term has another shape than the single binary value a lookup takes.
    UnexpectedTermShape(String),
}

} // verus!
