//! Blocks whose outputs are computed in floating point (exponential,
//! logarithm, square root, rotary position embedding). Their parameters live
//! here; the floating-point computation itself is not part of the verified
//! library.
use vstd::prelude::*;

verus! {

/// `exp` of each element, read with `input_SF` fractional bits and written
/// with `output_SF` fractional bits.
#[derive(Debug)]
pub struct ExpBasicBlock {
    pub input_SF: usize,
    pub output_SF: usize,
}

/// The natural logarithm of each element, read with scale `input_SF` and
/// written with scale `output_SF`.
#[derive(Debug)]
pub struct LogBasicBlock {
    pub input_SF: usize,
    pub output_SF: usize,
}

/// The square root of each element, read with scale `input_SF` and written
/// with scale `output_SF`.
#[derive(Debug)]
pub struct SqrtBasicBlock {
    pub input_SF: usize,
    pub output_SF: usize,
}

/// The cosines and sines of the rotary position embedding of token
/// `token_i`, written with `output_SF` fractional bits.
#[derive(Debug)]
pub struct RoPEBasicBlock {
    pub token_i: usize,
    pub output_SF: usize,
}

} // verus!
