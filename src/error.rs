//! Errors of context propagation.
use vstd::prelude::*;

verus! {

/// Why injecting or extracting a span context failed.
#[derive(Clone, Copy, Debug, PartialEq, Eq, Structural)]
pub enum ErrorKind {
    /// The carrier holds malformed trace data.
    InvalidInput,
    /// The carrier could not be written or read.
    Other,
}

} // verus!
