//! Clipping elements to a range.
use crate::field::Fe;
use crate::tensor::Tensor;
use vstd::prelude::*;

verus! {

/// Clips each element to `[min, max]` in the order of the elements'
/// canonical representatives.
#[derive(Debug)]
pub struct ClipBasicBlock {
    pub min: Fe,
    pub max: Fe,
}

/// `min(max(v, lo), hi)`.
pub open spec fn clip_value(v: nat, lo: nat, hi: nat) -> nat {
    let a = if v < lo {
        lo
    } else {
        v
    };
    if hi < a {
        hi
    } else {
        a
    }
}

impl ClipBasicBlock {
    pub fn run(&self, _model: &Tensor<Fe>, inputs: &Vec<Tensor<Fe>>) -> (r: Vec<Tensor<Fe>>)
        requires
            inputs@.len() == 1,
        ensures
            r@.len() == 1,
            r@[0].shape@ == inputs@[0].shape@,
            r@[0].data@.len() == inputs@[0].data@.len(),
            forall|k: int|
                0 <= k < r@[0].data@.len() ==> (#[trigger] r@[0].data@[k])@ == clip_value(
                    inputs@[0].data@[k]@,
                    self.min@,
                    self.max@,
                ),
    {
        let t = &inputs[0];
        let mut data: Vec<Fe> = Vec::new();
        let mut k: usize = 0;
        while k < t.data.len()
            invariant
                t == inputs@[0],
                k <= t.data@.len(),
                data@.len() == k,
                forall|m: int|
                    0 <= m < k ==> (#[trigger] data@[m])@ == clip_value(t.data@[m]@, self.min@, self.max@),
            decreases t.data.len() - k,
        {
            let x = t.data[k];
            let a = if x.lt(&self.min) {
                self.min
            } else {
                x
            };
            let c = if self.max.lt(&a) {
                self.max
            } else {
                a
            };
            data.push(c);
            k = k + 1;
        }
        let mut r: Vec<Tensor<Fe>> = Vec::new();
        r.push(Tensor { shape: t.shape.clone(), data });
        r
    }
}

} // verus!
