//! Rectification: elements that stand for negative numbers become zero.
use super::small_bound;
use crate::field::Fe;
use vstd::prelude::*;

verus! {

/// Keeps the elements below the bound for non-negative values and zeroes
/// the others.
pub struct ReLUBasicBlock;

/// The rectified value.
pub open spec fn relu_value(x: nat) -> nat {
    if x < small_bound() {
        x
    } else {
        0
    }
}

impl ReLUBasicBlock {
    /// The dimensions of the model and inputs this block takes: no model, and
    /// one vector.
    pub fn get_dims(&self) -> (r: (Vec<usize>, Vec<usize>))
        ensures
            r.0@ == Seq::<usize>::empty(),
            r.1@ == seq![1usize],
    {
        let mut inputs: Vec<usize> = Vec::new();
        inputs.push(1);
        proof {
            assert(inputs@ =~= seq![1usize]);
        }
        (Vec::new(), inputs)
    }

    pub fn run(&self, _model: &Vec<Vec<Fe>>, inputs: &Vec<Vec<Fe>>) -> (r: Vec<Vec<Fe>>)
        requires
            inputs@.len() >= 1,
        ensures
            r@.len() == 1,
            r@[0]@.len() == inputs@[0]@.len(),
            forall|i: int|
                0 <= i < inputs@[0]@.len() ==> #[trigger] r@[0]@[i]@ == relu_value(inputs@[0]@[i]@),
    {
        let x = &inputs[0];
        let bound = Fe::from_u64(268435456);
        let mut v: Vec<Fe> = Vec::new();
        let mut i: usize = 0;
        while i < x.len()
            invariant
                x@ == inputs@[0]@,
                bound@ == small_bound(),
                i <= x.len(),
                v@.len() == i,
                forall|k: int| 0 <= k < i ==> #[trigger] v@[k]@ == relu_value(x@[k]@),
            decreases x.len() - i,
        {
            if x[i].lt(&bound) {
                v.push(x[i]);
            } else {
                v.push(Fe::zero());
            }
            i = i + 1;
        }
        let mut out: Vec<Vec<Fe>> = Vec::new();
        out.push(v);
        out
    }
}

} // verus!
