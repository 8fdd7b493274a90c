use vstd::prelude::*;

verus! {

/// Bit pattern of the IEEE-754 binary64 value `+0`.
pub const ZERO_BITS: u64 = 0x0000_0000_0000_0000;

/// Bit pattern of the IEEE-754 binary64 value `1`.
pub const ONE_BITS: u64 = 0x3FF0_0000_0000_0000;

/// A real quantity of the scene (a coordinate, a length in metres, a matrix
/// entry), held as the bit pattern of an IEEE-754 binary64 value.
///
/// The library moves such values, stores them and hands them back bit for bit;
/// it does no arithmetic on the numbers they stand for. That is done by the
/// caller, who converts with `f64::from_bits` and `f64::to_bits`.
#[derive(Clone, Copy, Debug, PartialEq, Eq, Structural)]
pub struct Scalar {
    pub bits: u64,
}

impl Scalar {
    /// The value `+0`.
    pub fn zero() -> (s: Scalar)
        ensures
            s.bits == ZERO_BITS,
    {
        Scalar { bits: ZERO_BITS }
    }

    /// The value `1`.
    pub fn one() -> (s: Scalar)
        ensures
            s.bits == ONE_BITS,
    {
        Scalar { bits: ONE_BITS }
    }
}

} // verus!
