//! The sum of a vector.
use super::data::{enc_point, DataEnc, SRS};
use super::{vec_tensor, CQOutOfRangeError};
use crate::curve::{
    g1_affine, g1_affine_at, g1_affine_neg_at, g1_neg_view, g1_scale, g1_scale_at, g1_sub, g1_sub_at, G1Affine,
    G2Affine,
};
use crate::field::{fadd, fe_inv, finv, Fe, fe_add};
use crate::tensor::Tensor;
use vstd::prelude::*;

verus! {

/// Sums a vector into a single element.
#[derive(Debug)]
pub struct SumBasicBlock {
    pub len: usize,
}

/// The field sum of the first `k` elements.
pub open spec fn seq_sum(s: Seq<Fe>, k: nat) -> nat
    decreases k,
{
    if k == 0 {
        0
    } else {
        fadd(seq_sum(s, (k - 1) as nat), s[k - 1]@)
    }
}

/// The field sum of all the elements of a vector.
pub open spec fn vec_sum(s: Seq<Fe>) -> nat {
    seq_sum(s, s.len())
}

/// The sum of the first `k` elements reads only those elements.
proof fn lemma_seq_sum_prefix(s: Seq<Fe>, t: Seq<Fe>, k: nat)
    requires
        k <= s.len(),
        k <= t.len(),
        forall|i: int| 0 <= i < k ==> s[i] == t[i],
    ensures
        seq_sum(s, k) == seq_sum(t, k),
    decreases k,
{
    if k > 0 {
        lemma_seq_sum_prefix(s, t, (k - 1) as nat);
    }
}

/// The sum of no elements is zero, and appending an element adds it to
/// the sum: together these fix the sum of every vector.
pub proof fn law_vec_sum_append(s: Seq<Fe>, y: Fe)
    ensures
        vec_sum(Seq::<Fe>::empty()) == 0,
        vec_sum(s.push(y)) == fadd(vec_sum(s), y@),
{
    lemma_seq_sum_prefix(s.push(y), s, s.len());
}

impl SumBasicBlock {
    pub fn run(&self, _model: &Tensor<Fe>, inputs: &Vec<Tensor<Fe>>) -> (r: Result<Vec<Tensor<Fe>>, CQOutOfRangeError>)
        requires
            inputs@.len() == 1,
            inputs@[0].ndim() == 1,
        ensures
            r matches Ok(out) && out@.len() == 1 && out@[0].wf() && out@[0].shape@ == seq![1usize]
                && out@[0].data@[0]@ == vec_sum(inputs@[0].data@),
    {
        let x = &inputs[0].data;
        let mut s = Fe::zero();
        let mut i: usize = 0;
        while i < x.len()
            invariant
                i <= x.len(),
                s@ == seq_sum(x@, i as nat),
            decreases x.len() - i,
        {
            s = fe_add(&s, &x[i]);
            i = i + 1;
        }
        let mut data: Vec<Fe> = Vec::new();
        data.push(s);
        let mut out: Vec<Tensor<Fe>> = Vec::new();
        out.push(vec_tensor(data));
        Ok(out)
    }
}

impl SumBasicBlock {
    /// The verifier's check of a sum of `m` elements: with `z` the output
    /// commitment times `1/m` (the constant term, by which the output is
    /// `m` times it), the pairs `(f - z, [1]), (-Q, [x]), (-C, [y])`, where
    /// `Q` is the quotient by `x` and `C` the blinding of the proof. The
    /// length is truncated to a `u32` before it becomes a field element.
    pub fn verify(
        &self,
        srs: &SRS,
        inputs: &Vec<Tensor<DataEnc>>,
        outputs: &Vec<Tensor<DataEnc>>,
        proof: &Vec<G1Affine>,
    ) -> (r: Vec<Vec<(G1Affine, G2Affine)>>)
        requires
            inputs@.len() >= 1,
            inputs@[0].data@.len() >= 1,
            inputs@[0].data@[0].len == self.len,
            self.len as u32 != 0,
            outputs@.len() >= 1,
            outputs@[0].data@.len() >= 1,
            proof@.len() == 2,
            srs.X2A@.len() >= 2,
        ensures
            r@.len() == 1,
            r@[0]@.len() == 3,
            r@[0]@[0].0@ == g1_affine(
                g1_sub(
                    enc_point(inputs@[0].data@[0]),
                    g1_scale(enc_point(outputs@[0].data@[0]), finv((self.len as u32) as nat)),
                ),
            ),
            r@[0]@[0].1 == srs.X2A@[0],
            r@[0]@[1].0@ == g1_neg_view(proof@[0]@),
            r@[0]@[1].1 == srs.X2A@[1],
            r@[0]@[2].0@ == g1_neg_view(proof@[1]@),
            r@[0]@[2].1 == srs.Y2A,
    {
        let m = inputs[0].data[0].len;
        let m32 = m as u32;
        let inv = fe_inv(&Fe::from_u64(m32 as u64));
        let zero = g1_scale_at(&outputs[0].data[0].g1.to_projective(), &inv);
        let input_g1 = inputs[0].data[0].g1.to_projective();
        let mut check: Vec<(G1Affine, G2Affine)> = Vec::new();
        check.push((g1_affine_at(&g1_sub_at(&input_g1, &zero)), srs.X2A[0]));
        check.push((g1_affine_neg_at(&proof[0]), srs.X2A[1]));
        check.push((g1_affine_neg_at(&proof[1]), srs.Y2A));
        let mut r: Vec<Vec<(G1Affine, G2Affine)>> = Vec::new();
        r.push(check);
        r
    }
}

} // verus!
