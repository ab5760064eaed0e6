//! Removing and inserting a leading axis.
use super::copy_fes;
use crate::field::Fe;
use crate::tensor::{lemma_skip_size, shape_size, Tensor};
use vstd::prelude::*;

verus! {

/// Removes the first axis, keeping the first slice along it.
#[derive(Debug)]
pub struct SqueezeBasicBlock;

/// Inserts a first axis of length one.
#[derive(Debug)]
pub struct UnsqueezeBasicBlock;

impl SqueezeBasicBlock {
    pub fn run(&self, _weights: &Tensor<Fe>, inputs: &Vec<Tensor<Fe>>) -> (r: Vec<Tensor<Fe>>)
        requires
            inputs@.len() == 1,
            inputs@[0].wf(),
            inputs@[0].ndim() >= 1,
            inputs@[0].shape@[0] >= 1,
        ensures
            r@.len() == 1,
            r@[0].wf(),
            r@[0].shape@ == inputs@[0].shape@.drop_first(),
            r@[0].data@ == inputs@[0].data@.subrange(
                0,
                shape_size(inputs@[0].shape@.drop_first()) as int,
            ),
    {
        let t = &inputs[0];
        let mut shape: Vec<usize> = Vec::new();
        let mut k: usize = 1;
        while k < t.shape.len()
            invariant
                1 <= k <= t.shape.len(),
                shape@ == t.shape@.subrange(1, k as int),
            decreases t.shape.len() - k,
        {
            shape.push(t.shape[k]);
            k = k + 1;
        }
        proof {
            assert(shape@ =~= t.shape@.drop_first());
            assert(t.shape@.skip(1) =~= t.shape@.drop_first());
            assert(t.shape@.skip(0) =~= t.shape@);
            lemma_skip_size(t.shape@, 0);
            assert(shape_size(t.shape@.drop_first()) <= t.data@.len()) by (nonlinear_arith)
                requires
                    t.data@.len() == (t.shape@[0] as nat) * shape_size(t.shape@.drop_first()),
                    t.shape@[0] >= 1,
            ;
        }
        let size = t.data.len() / t.shape[0];
        proof {
            let rest = shape_size(t.shape@.drop_first());
            assert(t.data@.len() as int / (t.shape@[0] as int) == rest) by (nonlinear_arith)
                requires
                    t.data@.len() == (t.shape@[0] as nat) * rest,
                    t.shape@[0] >= 1,
            ;
        }
        let mut data: Vec<Fe> = Vec::new();
        let mut i: usize = 0;
        while i < size
            invariant
                size == shape_size(t.shape@.drop_first()),
                size <= t.data@.len(),
                i <= size,
                data@ == t.data@.subrange(0, i as int),
            decreases size - i,
        {
            data.push(t.data[i]);
            i = i + 1;
        }
        let mut out: Vec<Tensor<Fe>> = Vec::new();
        out.push(Tensor { shape, data });
        out
    }
}

impl UnsqueezeBasicBlock {
    pub fn run(&self, _model: &Tensor<Fe>, inputs: &Vec<Tensor<Fe>>) -> (r: Vec<Tensor<Fe>>)
        requires
            inputs@.len() == 1,
            inputs@[0].wf(),
        ensures
            r@.len() == 1,
            r@[0].wf(),
            r@[0].shape@ == seq![1usize] + inputs@[0].shape@,
            r@[0].data@ == inputs@[0].data@,
    {
        let t = &inputs[0];
        let mut shape: Vec<usize> = Vec::new();
        shape.push(1);
        let mut k: usize = 0;
        while k < t.shape.len()
            invariant
                k <= t.shape.len(),
                shape@ == seq![1usize] + t.shape@.subrange(0, k as int),
            decreases t.shape.len() - k,
        {
            shape.push(t.shape[k]);
            k = k + 1;
            proof {
                assert(shape@ =~= seq![1usize] + t.shape@.subrange(0, k as int));
            }
        }
        proof {
            assert(t.shape@.subrange(0, k as int) =~= t.shape@);
            assert(shape@.drop_first() =~= t.shape@);
        }
        let mut out: Vec<Tensor<Fe>> = Vec::new();
        out.push(Tensor { shape, data: copy_fes(&t.data) });
        out
    }
}

} // verus!

verus! {

/// Squeezing the dimension that unsqueezing added gives back the tensor's
/// shape and elements.
pub proof fn squeeze_undoes_unsqueeze(shape: Seq<usize>, data: Seq<Fe>)
    requires
        data.len() == shape_size(shape),
    ensures
        (seq![1usize] + shape).drop_first() == shape,
        data.subrange(0, shape_size((seq![1usize] + shape).drop_first()) as int) == data,
{
    assert((seq![1usize] + shape).drop_first() =~= shape);
    assert(data.subrange(0, data.len() as int) =~= data);
}

} // verus!
