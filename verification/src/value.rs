use vstd::prelude::*;

verus! {

/// One decoded component of an attribute stream.
///
/// The renderer ultimately consumes 32-bit floats, but every decoding rule of
/// the format is exact, so the decoder carries each component in an exact
/// form and leaves the lossy narrowing to the unverified edge:
///
/// - a float component is its IEEE-754 single-precision bit pattern, read
///   verbatim from the buffer;
/// - an unnormalized integer component is the integer itself, widened;
/// - a normalized integer component is the exact rational `num / den`
///   prescribed by the normalization rule, with `num` already clamped so
///   that the value lies in `[-1, 1]` for signed and `[0, 1]` for unsigned
///   component types.
#[derive(Clone, Copy, Debug, PartialEq, Eq, Structural)]
pub enum DecodedValue {
    /// IEEE-754 single-precision bit pattern, reinterpreted directly.
    Float32Bits(u32),
    /// Widened integer component, `normalized = false`.
    Integer(i64),
    /// Exact normalized value `num / den`, with `-den <= num <= den`
    /// and `den` the maximum raw value of the component type.
    Normalized(i64, u64),
}

impl DecodedValue {
    /// The zero stream element produced by a zero byte pattern of an
    /// unnormalized integer component.
    pub open spec fn spec_is_zero(self) -> bool {
        match self {
            DecodedValue::Float32Bits(b) => b == 0,
            DecodedValue::Integer(n) => n == 0,
            DecodedValue::Normalized(n, _) => n == 0,
        }
    }

    /// Whether this component represents the exact value zero
    /// (`+0.0` for a float bit pattern, `0` for the integer forms).
    pub fn is_zero(&self) -> (r: bool)
        ensures
            r == self.spec_is_zero(),
    {
        match self {
            DecodedValue::Float32Bits(b) => *b == 0,
            DecodedValue::Integer(n) => *n == 0,
            DecodedValue::Normalized(n, _) => *n == 0,
        }
    }
}

} // verus!
