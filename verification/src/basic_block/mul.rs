//! Multiplication: by a constant, by a single field element, and of two
//! vectors elementwise.
use super::{mul_elementwise, mul_scalar, CQOutOfRangeError};
use crate::field::{fmul, Fe};
use crate::tensor::Tensor;
use vstd::prelude::*;

verus! {

/// Multiplies a vector by a constant.
#[derive(Debug)]
pub struct MulConstBasicBlock {
    pub c: usize,
}

impl MulConstBasicBlock {
    /// Each element times the constant, taken as a 32-bit number.
    pub fn run(&self, _model: &Tensor<Fe>, inputs: &Vec<Tensor<Fe>>) -> (r: Result<Vec<Tensor<Fe>>, CQOutOfRangeError>)
        requires
            inputs@.len() == 1,
            inputs@[0].wf(),
            inputs@[0].ndim() == 1,
        ensures
            r matches Ok(out) && out@.len() == 1 && out@[0].wf() && out@[0].shape@ == inputs@[0].shape@
                && out@[0].data@.len() == inputs@[0].data@.len() && forall|i: int|
                0 <= i < inputs@[0].data@.len() ==> #[trigger] out@[0].data@[i]@ == fmul(
                    inputs@[0].data@[i]@,
                    (self.c as u32) as nat,
                ),
    {
        let c = Fe::from_u64((self.c as u32) as u64);
        let data = mul_scalar(&inputs[0].data, &c);
        let mut out: Vec<Tensor<Fe>> = Vec::new();
        out.push(Tensor { shape: super::copy_shape(&inputs[0].shape), data });
        Ok(out)
    }
}

/// Multiplies a tensor of at most one dimension by a single field element.
#[derive(Debug)]
pub struct MulScalarBasicBlock;

impl MulScalarBasicBlock {
    /// Each element of the first input times the only element of the second.
    pub fn run(&self, _model: &Tensor<Fe>, inputs: &Vec<Tensor<Fe>>) -> (r: Result<Vec<Tensor<Fe>>, CQOutOfRangeError>)
        requires
            inputs@.len() == 2,
            inputs@[0].wf(),
            inputs@[0].ndim() <= 1,
            inputs@[1].data@.len() == 1,
        ensures
            r matches Ok(out) && out@.len() == 1 && out@[0].wf() && out@[0].shape@ == inputs@[0].shape@
                && out@[0].data@.len() == inputs@[0].data@.len() && forall|i: int|
                0 <= i < inputs@[0].data@.len() ==> #[trigger] out@[0].data@[i]@ == fmul(
                    inputs@[0].data@[i]@,
                    inputs@[1].data@[0]@,
                ),
    {
        let data = mul_scalar(&inputs[0].data, &inputs[1].data[0]);
        let mut out: Vec<Tensor<Fe>> = Vec::new();
        out.push(Tensor { shape: super::copy_shape(&inputs[0].shape), data });
        Ok(out)
    }
}

/// Whether `r` holds the elementwise products of `a` and `b`.
pub open spec fn products(a: Seq<Fe>, b: Seq<Fe>, r: Seq<Fe>) -> bool {
    &&& r.len() == a.len()
    &&& forall|i: int| 0 <= i < a.len() ==> #[trigger] r[i]@ == fmul(a[i]@, b[i]@)
}

/// Elementwise multiplication does not depend on the order of its inputs:
/// the products of `a` and `b` are those of `b` and `a`, position by
/// position.
pub proof fn law_products_commute(a: Seq<Fe>, b: Seq<Fe>, r1: Seq<Fe>, r2: Seq<Fe>)
    requires
        a.len() == b.len(),
        products(a, b, r1),
        products(b, a, r2),
    ensures
        forall|i: int| 0 <= i < a.len() ==> #[trigger] r1[i]@ == r2[i]@,
{
    assert forall|i: int| 0 <= i < a.len() implies #[trigger] r1[i]@ == r2[i]@ by {
        assert(r1[i]@ == fmul(a[i]@, b[i]@));
        assert(r2[i]@ == fmul(b[i]@, a[i]@));
        assert(a[i]@ * b[i]@ == b[i]@ * a[i]@) by (nonlinear_arith);
    }
}

/// Multiplies two vectors of one shape elementwise.
#[derive(Debug)]
pub struct MulBasicBlock {
    pub len: usize,
}

impl MulBasicBlock {
    pub fn run(&self, _model: &Tensor<Fe>, inputs: &Vec<Tensor<Fe>>) -> (r: Result<Vec<Tensor<Fe>>, CQOutOfRangeError>)
        requires
            inputs@.len() == 2,
            inputs@[0].wf(),
            inputs@[1].wf(),
            inputs@[0].ndim() == 1,
            inputs@[0].shape@ == inputs@[1].shape@,
        ensures
            r matches Ok(out) && out@.len() == 1 && out@[0].wf() && out@[0].shape@ == inputs@[0].shape@
                && products(inputs@[0].data@, inputs@[1].data@, out@[0].data@),
    {
        let data = mul_elementwise(&inputs[0].data, &inputs[1].data);
        let mut out: Vec<Tensor<Fe>> = Vec::new();
        out.push(Tensor { shape: super::copy_shape(&inputs[0].shape), data });
        Ok(out)
    }
}

} // verus!
