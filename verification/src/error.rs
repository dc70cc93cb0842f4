//! The two ways in which decoding fails.

use vstd::prelude::*;

verus! {

/// Why a decode stopped.
#[derive(Clone, Copy, Debug, PartialEq, Eq, Structural)]
pub enum DecodeError {
    /// The token source failed, a tag was unbalanced, or the tokens ended
    /// before the element did.
    MalformedStream,
    /// A required attribute or child was absent, or a value's text is outside
    /// the domain of its type.
    SchemaViolation,
}

/// The writer failed.
#[derive(Clone, Copy, Debug, PartialEq, Eq, Structural)]
pub struct WriteError;

} // verus!
