use vstd::prelude::*;

verus! {

/// The ways decoding one primitive can fail.  Every failure is recoverable at
/// the caller: the extractor aborts the current primitive and surfaces the
/// specific error, never a silently truncated or zeroed result.
#[derive(Clone, Copy, Debug, PartialEq, Eq, Structural)]
pub enum DecodeError {
    /// A buffer id that the store does not know.
    BufferNotFound,
    /// A buffer whose external source could not be read.
    BufferReadError,
    /// An unsupported component/element combination, a stride smaller than
    /// one packed element, a byte range that leaves the buffer view, or a
    /// malformed sparse substitution.
    InvalidAccessor,
    /// A flat stream whose length is not `count` times the expected arity.
    ShapeMismatch,
    /// An index value that is negative or not representable as `u32`.
    IndexOverflow,
    /// A primitive without a position attribute.
    MissingRequiredAttribute,
    /// Attribute arrays of one primitive that disagree on element count.
    VertexCountMismatch,
}

impl DecodeError {
    /// A short human-readable name for the error.
    pub fn describe(&self) -> &'static str {
        match self {
            DecodeError::BufferNotFound => "buffer not found",
            DecodeError::BufferReadError => "buffer read error",
            DecodeError::InvalidAccessor => "invalid accessor",
            DecodeError::ShapeMismatch => "shape mismatch",
            DecodeError::IndexOverflow => "index overflow",
            DecodeError::MissingRequiredAttribute => "missing required attribute",
            DecodeError::VertexCountMismatch => "vertex count mismatch",
        }
    }
}

} // verus!
