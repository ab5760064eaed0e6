//! Equality of two committed vectors. The block has no witness to compute;
//! its proof shows that the two commitments open to the same vector.
use super::data::{DataEnc, SRS};
use crate::curve::{g1_affine_neg_at, g1_neg_view, G1Affine, G2Affine};
use crate::tensor::Tensor;
use vstd::prelude::*;

verus! {

/// Two vectors are equal.
#[derive(Debug)]
pub struct EqBasicBlock;

impl EqBasicBlock {
    /// The verifier's check that two committed vectors are equal: the pairs
    /// `(f, [1]), (-g, [1]), (-C, [y])`, whose pairings must multiply to one
    /// (`f - g` is the blinding `C` times `y`).
    pub fn verify(&self, srs: &SRS, inputs: &Vec<Tensor<DataEnc>>, proof: &Vec<G1Affine>) -> (r: Vec<
        Vec<(G1Affine, G2Affine)>,
    >)
        requires
            inputs@.len() >= 2,
            inputs@[0].data@.len() >= 1,
            inputs@[1].data@.len() >= 1,
            srs.X2A@.len() >= 1,
            proof@.len() >= 1,
        ensures
            r@.len() == 1,
            r@[0]@.len() == 3,
            r@[0]@[0] == (inputs@[0].data@[0].g1, srs.X2A@[0]),
            r@[0]@[1].0@ == g1_neg_view(inputs@[1].data@[0].g1@),
            r@[0]@[1].1 == srs.X2A@[0],
            r@[0]@[2].0@ == g1_neg_view(proof@[0]@),
            r@[0]@[2].1 == srs.Y2A,
    {
        let mut check: Vec<(G1Affine, G2Affine)> = Vec::new();
        check.push((inputs[0].data[0].g1, srs.X2A[0]));
        check.push((g1_affine_neg_at(&inputs[1].data[0].g1), srs.X2A[0]));
        check.push((g1_affine_neg_at(&proof[0]), srs.Y2A));
        let mut r: Vec<Vec<(G1Affine, G2Affine)>> = Vec::new();
        r.push(check);
        r
    }
}

} // verus!
