//! Reshaping a tensor without moving its elements.
use super::{copy_fes, copy_shape};
use crate::field::Fe;
use crate::tensor::{shape_size, Tensor};
use vstd::prelude::*;

verus! {

/// Gives a tensor a new shape with the same last dimension and the same
/// number of elements.
#[derive(Debug)]
pub struct ReshapeBasicBlock {
    pub shape: Vec<usize>,
}

/// The last dimension of a shape, if it has one.
pub open spec fn last_dim(s: Seq<usize>) -> Option<usize> {
    if s.len() == 0 {
        None
    } else {
        Some(s.last())
    }
}

impl ReshapeBasicBlock {
    pub fn run(&self, _model: &Tensor<Fe>, inputs: &Vec<Tensor<Fe>>) -> (r: Vec<Tensor<Fe>>)
        requires
            inputs@.len() == 1,
            inputs@[0].wf(),
            last_dim(inputs@[0].shape@) == last_dim(self.shape@),
            shape_size(self.shape@) == inputs@[0].data@.len(),
        ensures
            r@.len() == 1,
            r@[0].wf(),
            r@[0].shape@ == self.shape@,
            r@[0].data@ == inputs@[0].data@,
    {
        let mut out: Vec<Tensor<Fe>> = Vec::new();
        out.push(Tensor { shape: copy_shape(&self.shape), data: copy_fes(&inputs[0].data) });
        out
    }
}

} // verus!
