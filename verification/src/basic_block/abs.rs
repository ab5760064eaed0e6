//! Absolute value: elements that stand for negative numbers are negated.
use super::small_bound;
use crate::field::{fneg, Fe, fe_neg};
use vstd::prelude::*;

verus! {

/// Keeps the elements below the bound for non-negative values and negates
/// the others.
pub struct AbsBasicBlock;

/// The absolute value of an element.
pub open spec fn abs_value(x: nat) -> nat {
    if x < small_bound() {
        x
    } else {
        fneg(x)
    }
}

impl AbsBasicBlock {
    pub fn run(&self, _model: &Vec<Vec<Fe>>, inputs: &Vec<Vec<Fe>>) -> (r: Vec<Vec<Fe>>)
        requires
            inputs@.len() >= 1,
        ensures
            r@.len() == 1,
            r@[0]@.len() == inputs@[0]@.len(),
            forall|i: int|
                0 <= i < inputs@[0]@.len() ==> #[trigger] r@[0]@[i]@ == abs_value(inputs@[0]@[i]@),
    {
        let x = &inputs[0];
        let bound = Fe::from_u64(268435456);
        let mut v: Vec<Fe> = Vec::new();
        let mut i: usize = 0;
        while i < x.len()
            invariant
                x@ == inputs@[0]@,
                bound@ == small_bound(),
                i <= x.len(),
                v@.len() == i,
                forall|k: int| 0 <= k < i ==> #[trigger] v@[k]@ == abs_value(x@[k]@),
            decreases x.len() - i,
        {
            if x[i].lt(&bound) {
                v.push(x[i]);
            } else {
                v.push(fe_neg(&x[i]));
            }
            i = i + 1;
        }
        let mut out: Vec<Vec<Fe>> = Vec::new();
        out.push(v);
        out
    }
}

} // verus!
