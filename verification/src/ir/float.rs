//! Binary64 literal values, held by their bits.
use vstd::prelude::*;

verus! {

/// A finite, nonnegative binary64 literal, held by its IEEE 754 bits.
/// Negation remains an IR operation. Equality compares the represented value.
#[derive(Debug, Clone, Copy, PartialEq, Eq)]
pub struct Float(u64);

/// The sign bit of binary64 bits.
pub open spec fn sign_bit(bits: u64) -> bool {
    bits >= 0x8000_0000_0000_0000
}

/// The biased exponent field of binary64 bits.
pub open spec fn exponent_field(bits: u64) -> u64 {
    (bits / 0x10_0000_0000_0000) % 0x800
}

/// Bits of a finite, nonnegative binary64 value.
pub open spec fn finite_nonnegative(bits: u64) -> bool {
    !sign_bit(bits) && exponent_field(bits) != 0x7ff
}

impl Float {
    #[verifier::type_invariant]
    spec fn finite(self) -> bool {
        finite_nonnegative(self.0)
    }

    pub closed spec fn spec_bits(self) -> u64 {
        self.0
    }

    /// A float literal from binary64 bits; infinities, NaNs and negative
    /// values (including negative zero) are refused.
    pub fn from_bits(bits: u64) -> (r: Result<Float, &'static str>)
        ensures
            r is Ok <==> finite_nonnegative(bits),
            r matches Ok(f) ==> f.spec_bits() == bits,
    {
        let exponent = (bits / 0x10_0000_0000_0000) % 0x800;
        if bits >= 0x8000_0000_0000_0000 || exponent == 0x7ff {
            return Err("float literals must be finite and nonnegative; use negation separately");
        }
        Ok(Float(bits))
    }

    /// The binary64 bits of the literal.
    pub fn to_bits(self) -> (r: u64)
        ensures
            r == self.spec_bits(),
            finite_nonnegative(r),
    {
        proof {
            use_type_invariant(&self);
        }
        self.0
    }
}

} // verus!
