//! Constants: the model itself is the output.
use super::copy_tensor;
use crate::field::Fe;
use crate::tensor::Tensor;
use vstd::prelude::*;

verus! {

/// Outputs its model.
#[derive(Debug)]
pub struct ConstBasicBlock;

impl ConstBasicBlock {
    pub fn run(&self, model: &Tensor<Fe>, _inputs: &Vec<Tensor<Fe>>) -> (r: Vec<Tensor<Fe>>)
        ensures
            r@.len() == 1,
            r@[0].shape@ == model.shape@,
            r@[0].data@ == model.data@,
    {
        let mut out: Vec<Tensor<Fe>> = Vec::new();
        out.push(copy_tensor(model));
        out
    }
}

} // verus!
