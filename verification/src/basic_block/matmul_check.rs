//! The verifier's side of a matrix product: the pairing checks that the
//! random linear combinations of the committed rows, columns and outputs
//! agree.
use super::alternating::calc_pow;
use super::concat_check::pows_from1;
use super::cqlin_check::{enc_affines, firsts, pair_views};
use super::cqlin_verify::{a1_views, flat_commitment, flatten_commitments};
use super::data::{DataEnc, SRS};
use super::matmul::MatMulBasicBlock;
use crate::curve::{
    g1_affine, g1_affine_at, g1_affine_neg_at, g1_neg_view, g1_proj_view, g1_scale, g1_scale_at, g1_sub, g1_sub_at,
    g2_add, g2_add_at, g2_affine, g2_affine_at, g2_affine_neg_at, g2_neg_view, g2_proj_view, g2_scale, g2_scale_at,
    g2_sub, g2_sub_at, Fq, G1Affine, G2Affine, G2,
};
use crate::field::{fe_inv, fe_mul, fe_views, finv, fmul, interpolate, interpolate_at, Fe};
use crate::tensor::{next_pow_spec, Tensor};
use vstd::prelude::*;

verus! {

/// The second-group combination of the first `k` bases with the first `k`
/// scalars: the identity, then each `scalar * base` added in order.
pub open spec fn msm2_upto(
    bases: Seq<((nat, nat), (nat, nat), bool)>,
    scalars: Seq<nat>,
    k: nat,
) -> ((nat, nat), (nat, nat), (nat, nat))
    decreases k,
{
    if k == 0 {
        ((1, 0), (1, 0), (0, 0))
    } else {
        g2_add(msm2_upto(bases, scalars, (k - 1) as nat), g2_scale(g2_proj_view(bases[k - 1]), scalars[k - 1]))
    }
}

/// `sum scalars[i] * bases[i]` over the scalars, in the second group.
pub(crate) fn msm2(bases: &Vec<G2Affine>, scalars: &Vec<Fe>) -> (r: G2)
    requires
        scalars@.len() <= bases@.len(),
    ensures
        r@ == msm2_upto(bases@.map_values(|q: G2Affine| q@), fe_views(scalars@), scalars@.len() as nat),
{
    let mut acc = G2 {
        x: (Fq::from_u64(1), Fq::from_u64(0)),
        y: (Fq::from_u64(1), Fq::from_u64(0)),
        z: (Fq::from_u64(0), Fq::from_u64(0)),
    };
    let mut k: usize = 0;
    while k < scalars.len()
        invariant
            scalars@.len() <= bases@.len(),
            k <= scalars@.len(),
            acc@ == msm2_upto(bases@.map_values(|q: G2Affine| q@), fe_views(scalars@), k as nat),
        decreases scalars@.len() - k,
    {
        let t = g2_scale_at(&bases[k].to_projective(), &scalars[k]);
        acc = g2_add_at(&acc, &t);
        k = k + 1;
    }
    acc
}

/// The five checks, from the proof's points `p` (`left, left_Q, left(0),
/// left(0)/x, right, right_Q, right(0)/x`, then the corrections), the
/// second-group combination `fb2` of the columns, the flattened rows `fa`,
/// columns `fb` and outputs `fc`, the second-group powers combination
/// `bp2`, the first power, the second-group powers, the blinding and the
/// sizes `m` and `n`.
pub open spec fn matmul_checks(
    p: Seq<(nat, nat, bool)>,
    fb2: ((nat, nat), (nat, nat), bool),
    fa: (nat, nat, bool),
    fb: (nat, nat, bool),
    fc: (nat, nat, bool),
    bp2: ((nat, nat), (nat, nat), bool),
    x1a0: (nat, nat, bool),
    x2a: Seq<((nat, nat), (nat, nat), bool)>,
    y2a: ((nat, nat), (nat, nat), bool),
    m: nat,
    n: nat,
) -> Seq<Seq<((nat, nat, bool), ((nat, nat), (nat, nat), bool))>> {
    let pr = |q: (nat, nat, bool)| g1_proj_view(q);
    let neg = |q: (nat, nat, bool)| g1_neg_view(q);
    let vanish = |k: nat| g2_affine(g2_sub(g2_proj_view(x2a[k as int]), g2_proj_view(x2a[0])));
    let right_zero = g1_affine(g1_scale(pr(p[2]), fmul((m as u32) as nat, finv((n as u32) as nat))));
    seq![
        seq![(fa, fb2), (neg(p[0]), x2a[0]), (neg(p[1]), vanish(m)), (neg(p[7]), y2a)],
        seq![(fb, x2a[0]), (x1a0, g2_neg_view(fb2))],
        seq![(g1_affine(g1_sub(pr(p[0]), pr(p[2]))), x2a[0]), (neg(p[3]), x2a[1]), (neg(p[8]), y2a)],
        seq![(fc, bp2), (neg(p[4]), x2a[0]), (neg(p[5]), vanish(n)), (neg(p[9]), y2a)],
        seq![(g1_affine(g1_sub(pr(p[4]), pr(right_zero))), x2a[0]), (neg(p[6]), x2a[1]), (neg(p[10]), y2a)],
    ]
}

/// What the check accepts: at least one row commitment (one-dimensional
/// unless there is just one) with as many outputs, a one-dimensional column
/// vector of `1 <= n <= 2^28` commitments, a proof of 11 points and one
/// second-group point, and powers reaching `m`, `n` and the interpolation.
pub open spec fn matmul_check_accepts(
    srs: SRS,
    inputs: Seq<Tensor<DataEnc>>,
    outputs: Seq<Tensor<DataEnc>>,
    proof: (Seq<G1Affine>, Seq<G2Affine>, Seq<Fe>),
) -> bool {
    &&& inputs.len() >= 2
    &&& outputs.len() >= 1
    &&& inputs[0].data@.len() >= 1
    &&& (inputs[0].data@.len() == 1 || inputs[0].shape@.len() == 1)
    &&& outputs[0].data@.len() >= inputs[0].data@.len()
    &&& (inputs[0].data@.len() == 1 || outputs[0].shape@.len() == 1)
    &&& inputs[1].shape@.len() == 1
    &&& 1 <= inputs[1].data@.len() <= 268435456
    &&& inputs[1].data@.len() as u32 != 0
    &&& proof.0.len() == 11
    &&& proof.1.len() >= 1
    &&& srs.X1A@.len() >= 1
    &&& srs.X2A@.len() >= 2
    &&& srs.X2A@.len() > inputs[0].data@[0].len
    &&& srs.X2A@.len() > inputs[1].data@.len()
    &&& srs.X2A@.len() >= next_pow_spec(inputs[1].data@.len())
}

impl MatMulBasicBlock {
    /// The verifier's checks of a matrix product, with the row challenge
    /// `alpha` and the column challenge `beta` drawn by the caller: the five
    /// pairing checks, whose pairings must each multiply to one. `m` is the
    /// length of the first row commitment and `n` the number of columns.
    pub fn verify(
        &self,
        srs: &SRS,
        inputs: &Vec<Tensor<DataEnc>>,
        outputs: &Vec<Tensor<DataEnc>>,
        proof: (&Vec<G1Affine>, &Vec<G2Affine>, &Vec<Fe>),
        alpha: &Fe,
        beta: &Fe,
    ) -> (r: Vec<Vec<(G1Affine, G2Affine)>>)
        requires
            matmul_check_accepts(*srs, inputs@, outputs@, (proof.0@, proof.1@, proof.2@)),
        ensures
            ({
                let l = inputs@[0].data@.len();
                let n = inputs@[1].data@.len();
                let x2a = srs.X2A@.map_values(|q: G2Affine| q@);
                let bp2 = g2_affine(msm2_upto(x2a, interpolate(pows_from1(beta@, n)), next_pow_spec(n)));
                pair_views(r@) == matmul_checks(
                    a1_views(proof.0@),
                    proof.1@[0]@,
                    flat_commitment(enc_affines(inputs@[0], l), alpha@, l),
                    flat_commitment(enc_affines(inputs@[1], n), beta@, n),
                    flat_commitment(enc_affines(outputs@[0], l), alpha@, l),
                    bp2,
                    srs.X1A@[0]@,
                    x2a,
                    srs.Y2A@,
                    inputs@[0].data@[0].len as nat,
                    n,
                )
            }),
    {
        let l = inputs[0].data.len();
        let m = inputs[0].data[0].len;
        let n = inputs[1].data.len();
        let p = proof.0;
        let fb2 = proof.1[0];
        let beta_pow = calc_pow(*beta, n);
        let coeffs = interpolate_at(&beta_pow);
        proof {
            assert(fe_views(beta_pow@) =~= pows_from1(beta@, n as nat));
        }
        let bp2 = g2_affine_at(&msm2(&srs.X2A, &coeffs));
        let fa = flatten_commitments(&firsts(&inputs[0], l), alpha, l);
        let fb = flatten_commitments(&firsts(&inputs[1], n), beta, n);
        let fc = flatten_commitments(&firsts(&outputs[0], l), alpha, l);
        let x1a0 = srs.X1A[0];
        let x2a0 = srs.X2A[0];
        let y2a = srs.Y2A;
        let neg = |q: &G1Affine| -> (r: G1Affine)
            ensures
                r@ == g1_neg_view(q@),
            { g1_affine_neg_at(q) };
        let mut checks: Vec<Vec<(G1Affine, G2Affine)>> = Vec::new();
        let mut c: Vec<(G1Affine, G2Affine)> = Vec::new();
        c.push((fa, fb2));
        c.push((neg(&p[0]), x2a0));
        c.push((neg(&p[1]), g2_affine_at(&g2_sub_at(&srs.X2A[m].to_projective(), &x2a0.to_projective()))));
        c.push((neg(&p[7]), y2a));
        checks.push(c);
        let mut c: Vec<(G1Affine, G2Affine)> = Vec::new();
        c.push((fb, x2a0));
        c.push((x1a0, g2_affine_neg_at(&fb2)));
        checks.push(c);
        let mut c: Vec<(G1Affine, G2Affine)> = Vec::new();
        c.push((g1_affine_at(&g1_sub_at(&p[0].to_projective(), &p[2].to_projective())), x2a0));
        c.push((neg(&p[3]), srs.X2A[1]));
        c.push((neg(&p[8]), y2a));
        checks.push(c);
        let mut c: Vec<(G1Affine, G2Affine)> = Vec::new();
        c.push((fc, bp2));
        c.push((neg(&p[4]), x2a0));
        c.push((neg(&p[5]), g2_affine_at(&g2_sub_at(&srs.X2A[n].to_projective(), &x2a0.to_projective()))));
        c.push((neg(&p[9]), y2a));
        checks.push(c);
        let ratio = fe_mul(&Fe::from_u64((m as u32) as u64), &fe_inv(&Fe::from_u64((n as u32) as u64)));
        let right_zero = g1_affine_at(&g1_scale_at(&p[2].to_projective(), &ratio));
        let mut c: Vec<(G1Affine, G2Affine)> = Vec::new();
        c.push((g1_affine_at(&g1_sub_at(&p[4].to_projective(), &right_zero.to_projective())), x2a0));
        c.push((neg(&p[6]), srs.X2A[1]));
        c.push((neg(&p[10]), y2a));
        checks.push(c);
        proof {
            let want = matmul_checks(
                a1_views(p@),
                fb2@,
                fa@,
                fb@,
                fc@,
                bp2@,
                x1a0@,
                srs.X2A@.map_values(|q: G2Affine| q@),
                y2a@,
                m as nat,
                n as nat,
            );
            assert(pair_views(checks@) =~~= want);
        }
        checks
    }
}

} // verus!
