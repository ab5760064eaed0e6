//! A bridge passes its first input through unchanged.
use super::copy_tensor;
use crate::field::Fe;
use crate::tensor::Tensor;
use vstd::prelude::*;

verus! {

/// Passes its first input through.
pub struct BridgeBasicBlock;

impl BridgeBasicBlock {
    pub fn run(&self, _model: &Tensor<Fe>, inputs: &Vec<Tensor<Fe>>) -> (r: Tensor<Fe>)
        requires
            inputs@.len() >= 1,
        ensures
            r.shape@ == inputs@[0].shape@,
            r.data@ == inputs@[0].data@,
    {
        copy_tensor(&inputs[0])
    }
}

} // verus!
