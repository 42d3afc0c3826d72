//! The error type of the container serializer.

use vstd::prelude::*;

verus! {

/// Everything that can go wrong while serializing a container.
///
/// The only failure this component itself produces is exceeding the
/// configured recursion limit; failures of nested work are propagated
/// verbatim as the same type.
#[derive(Clone, Copy, Debug, PartialEq, Eq)]
pub enum SerializeError {
    /// Container nesting exceeded the configured maximum depth.
    RecursionLimit,
}

impl SerializeError {
    /// A human-readable description of the error.
    pub fn message(&self) -> (s: String)
        ensures
            s@ == "Recursion limit reached"@,
    {
        "Recursion limit reached".to_owned()
    }
}

} // verus!
