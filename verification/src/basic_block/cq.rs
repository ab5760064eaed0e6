//! Lookups of a vector into a committed table: the verifier's pairing
//! checks that the lookup's multiplicities and inverse vectors are well
//! formed.
use super::cqlin_check::pair_views;
use crate::accumulator::{acc_proof_to_cq_acc, cq_acc_proof_fits, is_empty_proof};
use super::cqlin_verify::a1_views;
use super::data::{DataEnc, SRS};
use crate::curve::{
    g1_affine, g1_affine_at, g1_affine_neg_at, g1_neg_view, g1_proj_view, g1_scale, g1_scale_at, g1_sub, g1_sub_at,
    g2_affine, g2_affine_at, g2_affine_neg_at, g2_neg_view, g2_proj_view, g2_sub, g2_sub_at, G1Affine, G2Affine,
};
use crate::field::{fe_inv, fe_mul, finv, fmul, Fe};
use crate::tensor::Tensor;
use vstd::prelude::*;

verus! {

/// A lookup of a vector of length `n` into a table.
#[derive(Debug)]
pub struct CQBasicBlock {
    pub n: usize,
}

/// The seven checks, from the proof's points `p` (`m, A, A_Q, A(0),
/// A(0)/x, B, B_Q, B(0)/x, B_DC`, then the blindings `C1 .. C5`), its
/// second-group table and input commitments `t2`, `f2`, the model's and the
/// input's commitments, the first powers, the blinding `y2a`, the sizes `N`
/// and `n`, and the challenge `beta`.
pub open spec fn cq_checks(
    p: Seq<(nat, nat, bool)>,
    t2: ((nat, nat), (nat, nat), bool),
    f2: ((nat, nat), (nat, nat), bool),
    model_g1: (nat, nat, bool),
    input_g1: (nat, nat, bool),
    x1a0: (nat, nat, bool),
    x2a: Seq<((nat, nat), (nat, nat), bool)>,
    y2a: ((nat, nat), (nat, nat), bool),
    big_n: nat,
    n: nat,
    beta: nat,
) -> Seq<Seq<((nat, nat, bool), ((nat, nat), (nat, nat), bool))>> {
    let pr = |q: (nat, nat, bool)| g1_proj_view(q);
    let neg = |q: (nat, nat, bool)| g1_neg_view(q);
    let vanish = |k: nat| g2_affine(g2_sub(g2_proj_view(x2a[k as int]), g2_proj_view(x2a[0])));
    let b0 = g1_affine(g1_scale(pr(p[3]), fmul((big_n as u32) as nat, finv((n as u32) as nat))));
    seq![
        seq![
            (p[1], t2),
            (g1_affine(g1_sub(g1_scale(pr(p[1]), beta), pr(p[0]))), x2a[0]),
            (neg(p[2]), vanish(big_n)),
            (neg(p[9]), y2a),
        ],
        seq![(model_g1, x2a[0]), (x1a0, g2_neg_view(t2))],
        seq![(g1_affine(g1_sub(pr(p[1]), pr(p[3]))), x2a[0]), (neg(p[4]), x2a[1]), (neg(p[10]), y2a)],
        seq![
            (p[5], f2),
            (g1_affine(g1_sub(g1_scale(pr(p[5]), beta), pr(x1a0))), x2a[0]),
            (neg(p[6]), vanish(n)),
            (neg(p[11]), y2a),
        ],
        seq![(input_g1, x2a[0]), (x1a0, g2_neg_view(f2))],
        seq![(g1_affine(g1_sub(pr(p[5]), pr(b0))), x2a[0]), (neg(p[7]), x2a[1]), (neg(p[12]), y2a)],
        seq![(p[5], x2a[big_n - n]), (neg(p[8]), x2a[0]), (neg(p[13]), y2a)],
    ]
}

impl CQBasicBlock {
    /// The verifier's checks of a lookup with the challenge `beta` drawn by
    /// the caller: the seven pairing checks, whose pairings must each
    /// multiply to one. `N` is the table's length and `n` the input's, both
    /// truncated to `u32` before they become field elements.
    pub fn verify(
        &self,
        srs: &SRS,
        model: &Tensor<DataEnc>,
        inputs: &Vec<Tensor<DataEnc>>,
        proof: (&Vec<G1Affine>, &Vec<G2Affine>, &Vec<Fe>),
        beta: &Fe,
    ) -> (r: Vec<Vec<(G1Affine, G2Affine)>>)
        requires
            model.data@.len() >= 1,
            inputs@.len() >= 1,
            inputs@[0].data@.len() >= 1,
            proof.0@.len() == 14,
            proof.1@.len() == 2,
            inputs@[0].data@[0].len <= model.data@[0].len,
            inputs@[0].data@[0].len as u32 != 0,
            srs.X2A@.len() > model.data@[0].len,
            srs.X2A@.len() >= 2,
            srs.X1A@.len() >= 1,
        ensures
            pair_views(r@) == cq_checks(
                a1_views(proof.0@),
                proof.1@[0]@,
                proof.1@[1]@,
                model.data@[0].g1@,
                inputs@[0].data@[0].g1@,
                srs.X1A@[0]@,
                srs.X2A@.map_values(|q: G2Affine| q@),
                srs.Y2A@,
                model.data@[0].len as nat,
                inputs@[0].data@[0].len as nat,
                beta@,
            ),
    {
        let big_n = model.data[0].len;
        let n = inputs[0].data[0].len;
        let p = proof.0;
        let (t2, f2) = (proof.1[0], proof.1[1]);
        let x1a0 = srs.X1A[0];
        let x2a0 = srs.X2A[0];
        let y2a = srs.Y2A;
        let neg = |q: &G1Affine| -> (r: G1Affine)
            ensures
                r@ == g1_neg_view(q@),
            { g1_affine_neg_at(q) };
        let ax = p[1].to_projective();
        let bx = p[5].to_projective();
        let mut checks: Vec<Vec<(G1Affine, G2Affine)>> = Vec::new();
        let mut c: Vec<(G1Affine, G2Affine)> = Vec::new();
        c.push((p[1], t2));
        c.push((g1_affine_at(&g1_sub_at(&g1_scale_at(&ax, beta), &p[0].to_projective())), x2a0));
        c.push((neg(&p[2]), g2_affine_at(&g2_sub_at(&srs.X2A[big_n].to_projective(), &x2a0.to_projective()))));
        c.push((neg(&p[9]), y2a));
        checks.push(c);
        let mut c: Vec<(G1Affine, G2Affine)> = Vec::new();
        c.push((model.data[0].g1, x2a0));
        c.push((x1a0, g2_affine_neg_at(&t2)));
        checks.push(c);
        let mut c: Vec<(G1Affine, G2Affine)> = Vec::new();
        c.push((g1_affine_at(&g1_sub_at(&ax, &p[3].to_projective())), x2a0));
        c.push((neg(&p[4]), srs.X2A[1]));
        c.push((neg(&p[10]), y2a));
        checks.push(c);
        let mut c: Vec<(G1Affine, G2Affine)> = Vec::new();
        c.push((p[5], f2));
        c.push((g1_affine_at(&g1_sub_at(&g1_scale_at(&bx, beta), &x1a0.to_projective())), x2a0));
        c.push((neg(&p[6]), g2_affine_at(&g2_sub_at(&srs.X2A[n].to_projective(), &x2a0.to_projective()))));
        c.push((neg(&p[11]), y2a));
        checks.push(c);
        let mut c: Vec<(G1Affine, G2Affine)> = Vec::new();
        c.push((inputs[0].data[0].g1, x2a0));
        c.push((x1a0, g2_affine_neg_at(&f2)));
        checks.push(c);
        let ratio = fe_mul(&Fe::from_u64((big_n as u32) as u64), &fe_inv(&Fe::from_u64((n as u32) as u64)));
        let b0 = g1_affine_at(&g1_scale_at(&p[3].to_projective(), &ratio));
        let mut c: Vec<(G1Affine, G2Affine)> = Vec::new();
        c.push((g1_affine_at(&g1_sub_at(&bx, &b0.to_projective())), x2a0));
        c.push((neg(&p[7]), srs.X2A[1]));
        c.push((neg(&p[12]), y2a));
        checks.push(c);
        let mut c: Vec<(G1Affine, G2Affine)> = Vec::new();
        c.push((p[5], srs.X2A[big_n - n]));
        c.push((neg(&p[8]), x2a0));
        c.push((neg(&p[13]), y2a));
        checks.push(c);
        proof {
            let want = cq_checks(
                a1_views(p@),
                t2@,
                f2@,
                model.data@[0].g1@,
                inputs@[0].data@[0].g1@,
                x1a0@,
                srs.X2A@.map_values(|q: G2Affine| q@),
                y2a@,
                big_n as nat,
                n as nat,
                beta@,
            );
            assert(pair_views(checks@) =~~= want);
        }
        checks
    }
}

/// The decider's check of an accumulated lookup proof with accumulated
/// points `g`: that `B(x) - B(0)` is divisible by `x`, with `B(0) = A(0) N /
/// n`, the pairs `(B - B(0), [1]), (-B(0)/x, [x]), (-C4, [y])`.
pub open spec fn cq_decide_check(
    g: Seq<(nat, nat, bool)>,
    x2a: Seq<((nat, nat), (nat, nat), bool)>,
    y2a: ((nat, nat), (nat, nat), bool),
    big_n: nat,
    n: nat,
) -> Seq<((nat, nat, bool), ((nat, nat), (nat, nat), bool))> {
    let b0 = g1_affine(g1_scale(g1_proj_view(g[3]), fmul((big_n as u32) as nat, finv((n as u32) as nat))));
    seq![
        (g1_affine(g1_sub(g1_proj_view(g[5]), g1_proj_view(b0))), x2a[0]),
        (g1_neg_view(g[7]), x2a[1]),
        (g1_neg_view(g[13]), y2a),
    ]
}

impl CQBasicBlock {
    /// The decider's checks of an accumulated lookup proof (as the verifier
    /// holds it): of the checks an accumulator carries, the one on `B(0)`,
    /// whose pairings must multiply to one. `N` is one less than the number
    /// of projective second-group powers; `N` and `n` are truncated to `u32`
    /// before they become field elements.
    pub fn acc_decide(&self, srs: &SRS, acc_proof: (&Vec<G1Affine>, &Vec<G2Affine>, &Vec<Fe>)) -> (r: Vec<
        Vec<(G1Affine, G2Affine)>,
    >)
        requires
            cq_acc_proof_fits(acc_proof.0@, acc_proof.1@, acc_proof.2@, false),
            !is_empty_proof(acc_proof.0@, acc_proof.1@, acc_proof.2@),
            srs.X2P@.len() >= 1,
            self.n <= srs.X2P@.len() - 1,
            srs.X2A@.len() >= srs.X2P@.len(),
            srs.X2A@.len() >= 2,
            srs.X1A@.len() >= 1,
            srs.X1P@.len() >= 1,
            self.n as u32 != 0,
        ensures
            pair_views(r@) == seq![
                cq_decide_check(
                    a1_views(acc_proof.0@),
                    srs.X2A@.map_values(|q: G2Affine| q@),
                    srs.Y2A@,
                    (srs.X2P@.len() - 1) as nat,
                    self.n as nat,
                ),
            ],
    {
        let big_n = srs.X2P.len() - 1;
        let n = self.n;
        let holder = acc_proof_to_cq_acc(acc_proof, false);
        let g = &holder.acc_g1;
        let ratio = fe_mul(&Fe::from_u64((big_n as u32) as u64), &fe_inv(&Fe::from_u64((n as u32) as u64)));
        let b0 = g1_affine_at(&g1_scale_at(&g[3].to_projective(), &ratio));
        let mut c: Vec<(G1Affine, G2Affine)> = Vec::new();
        c.push((g1_affine_at(&g1_sub_at(&g[5].to_projective(), &b0.to_projective())), srs.X2A[0]));
        c.push((g1_affine_neg_at(&g[7]), srs.X2A[1]));
        c.push((g1_affine_neg_at(&g[13]), srs.Y2A));
        let mut checks: Vec<Vec<(G1Affine, G2Affine)>> = Vec::new();
        checks.push(c);
        proof {
            let want = seq![
                cq_decide_check(
                    a1_views(acc_proof.0@),
                    srs.X2A@.map_values(|q: G2Affine| q@),
                    srs.Y2A@,
                    big_n as nat,
                    n as nat,
                ),
            ];
            assert(pair_views(checks@) =~~= want);
        }
        checks
    }
}

} // verus!
