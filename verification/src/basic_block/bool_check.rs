//! Checking that every element is a bit.
use crate::field::Fe;
use crate::tensor::Tensor;
use vstd::prelude::*;

verus! {

/// Accepts a tensor whose elements are all zero or one; it has no outputs.
#[derive(Debug)]
pub struct BooleanCheckBasicBlock;

/// Every element is zero or one.
pub open spec fn all_bits(s: Seq<Fe>) -> bool {
    forall|i: int| 0 <= i < s.len() ==> (#[trigger] s[i])@ == 0 || s[i]@ == 1
}

impl BooleanCheckBasicBlock {
    pub fn run(&self, _model: &Tensor<Fe>, inputs: &Vec<Tensor<Fe>>) -> (r: Vec<Tensor<Fe>>)
        requires
            inputs@.len() == 1,
            all_bits(inputs@[0].data@),
        ensures
            r@.len() == 0,
    {
        Vec::new()
    }
}

} // verus!
