//! The verifier's side of a permutation of a matrix's elements: the
//! pairing checks that the input, weighted by powers of a challenge in row
//! order, and the output, weighted by the same powers in permuted order,
//! agree.
use super::alternating::calc_pow;
use super::concat_check::{affine_views, pows_from1, projs, to_projs};
use super::cqlin_check::{enc_affines, firsts, pair_views};
use super::cqlin_verify::{a1_views, flat_commitment, flatten_commitments};
use super::data::{DataEnc, SRS};
use super::matmul_check::msm2_upto;
use super::permute::PermuteBasicBlock;
use super::transpose::fpow;
use crate::curve::{
    g1_affine, g1_affine_at, g1_affine_neg_at, g1_neg_view, g1_proj_view, g1_scale, g1_scale_at, g1_sub, g1_sub_at,
    g2_affine, g2_affine_at, g2_proj_view, g2_sub, g2_sub_at, msm, msm_upto, G1Affine, G2Affine,
};
use crate::field::{fe_inv, fe_mul, fe_views, finv, fmul, interpolate, interpolate_at, Fe};
use crate::tensor::{next_pow_spec, Tensor};
use vstd::prelude::*;

verus! {

/// The powers `alpha^(idx[i] + 1)`: the challenge's powers taken in the
/// order of a permutation's indices.
pub open spec fn picked_pows(alpha: nat, idx: Seq<usize>) -> Seq<nat> {
    Seq::new(idx.len(), |i: int| fpow(alpha, (idx[i] + 1) as nat))
}

/// The elements of `pows` at the given indices.
fn pick(pows: &Vec<Fe>, idx: &Vec<usize>) -> (r: Vec<Fe>)
    requires
        forall|i: int| 0 <= i < idx@.len() ==> #[trigger] idx@[i] < pows@.len(),
    ensures
        r@.len() == idx@.len(),
        forall|i: int| 0 <= i < idx@.len() ==> (#[trigger] r@[i]) == pows@[idx@[i] as int],
{
    let mut r: Vec<Fe> = Vec::new();
    let mut i: usize = 0;
    while i < idx.len()
        invariant
            forall|k: int| 0 <= k < idx@.len() ==> #[trigger] idx@[k] < pows@.len(),
            i <= idx@.len(),
            r@.len() == i,
            forall|k: int| 0 <= k < i ==> (#[trigger] r@[k]) == pows@[idx@[k] as int],
        decreases idx@.len() - i,
    {
        r.push(pows[idx[i]]);
        i = i + 1;
    }
    r
}

/// The four checks, from the proof's points `p` (`left, left_Q, left(0),
/// left(0)/x, right, right_Q, right(0)/x`, then the corrections), the
/// flattened input `fl` and output `fr`, the second-group combinations `b2`
/// and `d2`, the second-group powers, the blinding and the column counts
/// `m` and `m2`.
pub open spec fn permute_checks(
    p: Seq<(nat, nat, bool)>,
    fl: (nat, nat, bool),
    fr: (nat, nat, bool),
    b2: ((nat, nat), (nat, nat), bool),
    d2: ((nat, nat), (nat, nat), bool),
    x2a: Seq<((nat, nat), (nat, nat), bool)>,
    y2a: ((nat, nat), (nat, nat), bool),
    m: nat,
    m2: nat,
) -> Seq<Seq<((nat, nat, bool), ((nat, nat), (nat, nat), bool))>> {
    let pr = |q: (nat, nat, bool)| g1_proj_view(q);
    let neg = |q: (nat, nat, bool)| g1_neg_view(q);
    let vanish = |k: nat| g2_affine(g2_sub(g2_proj_view(x2a[k as int]), g2_proj_view(x2a[0])));
    let right_zero = g1_affine(g1_scale(pr(p[2]), fmul((m as u32) as nat, finv((m2 as u32) as nat))));
    seq![
        seq![(fl, b2), (neg(p[0]), x2a[0]), (neg(p[1]), vanish(m)), (neg(p[7]), y2a)],
        seq![(g1_affine(g1_sub(pr(p[0]), pr(p[2]))), x2a[0]), (neg(p[3]), x2a[1]), (neg(p[8]), y2a)],
        seq![(fr, d2), (neg(p[4]), x2a[0]), (neg(p[5]), vanish(m2)), (neg(p[9]), y2a)],
        seq![(g1_affine(g1_sub(pr(p[4]), pr(right_zero))), x2a[0]), (neg(p[6]), x2a[1]), (neg(p[10]), y2a)],
    ]
}

/// What the check accepts: a one-dimensional input of `n >= 1` commitments
/// to columns of length `1 <= m <= 2^28`, a one-dimensional output at least
/// as long as the row permutation, permutation indices below `n m`, a
/// column permutation of `1 <= m2 <= 2^28` entries, a proof of 11 points,
/// and second-group powers reaching `m`, `m2` and the interpolations.
pub open spec fn permute_check_accepts(
    perm: (Seq<usize>, Seq<usize>),
    srs: SRS,
    inputs: Seq<Tensor<DataEnc>>,
    outputs: Seq<Tensor<DataEnc>>,
    proof: (Seq<G1Affine>, Seq<G2Affine>, Seq<Fe>),
) -> bool {
    let n = inputs[0].data@.len();
    let m = inputs[0].data@[0].len as nat;
    &&& inputs.len() >= 1
    &&& outputs.len() >= 1
    &&& inputs[0].shape@.len() == 1
    &&& outputs[0].shape@.len() == 1
    &&& n >= 1
    &&& 1 <= m <= 268435456
    &&& n * m <= usize::MAX
    &&& outputs[0].data@.len() >= perm.0.len()
    &&& forall|i: int| 0 <= i < perm.0.len() ==> #[trigger] perm.0[i] < n * m
    &&& forall|i: int| 0 <= i < perm.1.len() ==> #[trigger] perm.1[i] < n * m
    &&& 1 <= perm.1.len() <= 268435456
    &&& perm.1.len() as u32 != 0
    &&& proof.0.len() == 11
    &&& srs.X2A@.len() >= 2
    &&& srs.X2A@.len() > m
    &&& srs.X2A@.len() > perm.1.len()
    &&& srs.X2A@.len() >= next_pow_spec(m)
    &&& srs.X2A@.len() >= next_pow_spec(perm.1.len())
}

impl PermuteBasicBlock {
    /// The verifier's checks of a permutation with the challenge `alpha`
    /// drawn by the caller: the four pairing checks, whose pairings must
    /// each multiply to one.
    pub fn verify(
        &self,
        srs: &SRS,
        inputs: &Vec<Tensor<DataEnc>>,
        outputs: &Vec<Tensor<DataEnc>>,
        proof: (&Vec<G1Affine>, &Vec<G2Affine>, &Vec<Fe>),
        alpha: &Fe,
    ) -> (r: Vec<Vec<(G1Affine, G2Affine)>>)
        requires
            permute_check_accepts(
                (self.permutation.0@, self.permutation.1@),
                *srs,
                inputs@,
                outputs@,
                (proof.0@, proof.1@, proof.2@),
            ),
        ensures
            ({
                let n = inputs@[0].data@.len();
                let m = inputs@[0].data@[0].len as nat;
                let (p0, p1) = (self.permutation.0@, self.permutation.1@);
                let x2a = srs.X2A@.map_values(|q: G2Affine| q@);
                let b = Seq::new(m, |i: int| fpow(alpha@, (i * n + 1) as nat));
                let b2 = g2_affine(msm2_upto(x2a, interpolate(b), next_pow_spec(m)));
                let d2 = g2_affine(msm2_upto(x2a, interpolate(picked_pows(alpha@, p1)), next_pow_spec(p1.len())));
                let fr = g1_affine(
                    msm_upto(projs(enc_affines(outputs@[0], p0.len())), picked_pows(alpha@, p0), p0.len()),
                );
                pair_views(r@) == permute_checks(
                    a1_views(proof.0@),
                    flat_commitment(enc_affines(inputs@[0], n), alpha@, n),
                    fr,
                    b2,
                    d2,
                    x2a,
                    srs.Y2A@,
                    m,
                    p1.len(),
                )
            }),
    {
        let input = &inputs[0];
        let n = input.data.len();
        let m = input.data[0].len;
        let n2 = self.permutation.0.len();
        let m2 = self.permutation.1.len();
        let p = proof.0;
        proof {
            assert(n * m >= 1) by (nonlinear_arith)
                requires
                    n >= 1,
                    m >= 1,
            ;
        }
        let pw = calc_pow(*alpha, n * m);
        let mut b: Vec<Fe> = Vec::new();
        let mut i: usize = 0;
        while i < m
            invariant
                n >= 1,
                n * m <= usize::MAX,
                pw@.len() == n * m,
                forall|j: int| 0 <= j < n * m ==> #[trigger] pw@[j]@ == fpow(alpha@, (j + 1) as nat),
                i <= m,
                b@.len() == i,
                forall|k: int| 0 <= k < i ==> (#[trigger] b@[k])@ == fpow(alpha@, (k * n + 1) as nat),
            decreases m - i,
        {
            proof {
                assert(i * n < n * m) by (nonlinear_arith)
                    requires
                        i < m,
                        n >= 1,
                ;
            }
            b.push(pw[i * n]);
            i = i + 1;
        }
        let c = pick(&pw, &self.permutation.0);
        let d = pick(&pw, &self.permutation.1);
        proof {
            assert(fe_views(b@) =~= Seq::new(m as nat, |i: int| fpow(alpha@, (i * n + 1) as nat)));
            assert(fe_views(d@) =~= picked_pows(alpha@, self.permutation.1@));
            assert(fe_views(c@) =~= picked_pows(alpha@, self.permutation.0@));
        }
        let b2 = g2_affine_at(&super::matmul_check::msm2(&srs.X2A, &interpolate_at(&b)));
        let d2 = g2_affine_at(&super::matmul_check::msm2(&srs.X2A, &interpolate_at(&d)));
        let fl = flatten_commitments(&firsts(input, n), alpha, n);
        let outs = firsts(&outputs[0], n2);
        let fr = g1_affine_at(&msm(&to_projs(&outs), &c));
        let x2a0 = srs.X2A[0];
        let y2a = srs.Y2A;
        let neg = |q: &G1Affine| -> (r: G1Affine)
            ensures
                r@ == g1_neg_view(q@),
            { g1_affine_neg_at(q) };
        let mut checks: Vec<Vec<(G1Affine, G2Affine)>> = Vec::new();
        let mut v: Vec<(G1Affine, G2Affine)> = Vec::new();
        v.push((fl, b2));
        v.push((neg(&p[0]), x2a0));
        v.push((neg(&p[1]), g2_affine_at(&g2_sub_at(&srs.X2A[m].to_projective(), &x2a0.to_projective()))));
        v.push((neg(&p[7]), y2a));
        checks.push(v);
        let mut v: Vec<(G1Affine, G2Affine)> = Vec::new();
        v.push((g1_affine_at(&g1_sub_at(&p[0].to_projective(), &p[2].to_projective())), x2a0));
        v.push((neg(&p[3]), srs.X2A[1]));
        v.push((neg(&p[8]), y2a));
        checks.push(v);
        let mut v: Vec<(G1Affine, G2Affine)> = Vec::new();
        v.push((fr, d2));
        v.push((neg(&p[4]), x2a0));
        v.push((neg(&p[5]), g2_affine_at(&g2_sub_at(&srs.X2A[m2].to_projective(), &x2a0.to_projective()))));
        v.push((neg(&p[9]), y2a));
        checks.push(v);
        let ratio = fe_mul(&Fe::from_u64((m as u32) as u64), &fe_inv(&Fe::from_u64((m2 as u32) as u64)));
        let right_zero = g1_affine_at(&g1_scale_at(&p[2].to_projective(), &ratio));
        let mut v: Vec<(G1Affine, G2Affine)> = Vec::new();
        v.push((g1_affine_at(&g1_sub_at(&p[4].to_projective(), &right_zero.to_projective())), x2a0));
        v.push((neg(&p[6]), srs.X2A[1]));
        v.push((neg(&p[10]), y2a));
        checks.push(v);
        proof {
            assert(projs(affine_views(outs@)) =~= projs(enc_affines(outputs@[0], n2 as nat)));
            let want = permute_checks(
                a1_views(p@),
                fl@,
                fr@,
                b2@,
                d2@,
                srs.X2A@.map_values(|q: G2Affine| q@),
                y2a@,
                m as nat,
                m2 as nat,
            );
            assert(pair_views(checks@) =~~= want);
        }
        checks
    }
}

} // verus!
