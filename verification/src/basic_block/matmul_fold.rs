//! One folding step of the matrix product block: two accumulated proofs
//! combined with the folding challenge.
use super::matmul::{MatMulAccErrs, MatMulAccFiatShamir, MatMulAccProof, MatMulAccProofProverOnly, MatMulErrs};
use super::cq_verify::folds_to2;
use super::cqlin_verify::{check_fold, folds_to};
use crate::curve::{
    g1_add, g1_add_at, g1_affine, g1_affine_at, g1_proj_view, g1_scale, g1_scale_at, g2_add, g2_add_at, g2_affine, g2_affine_at,
    g2_proj_view, g2_scale, g2_scale_at, gt_add, gt_add_at, gt_scale, gt_scale_at, Fq, G1Affine, G2Affine, Gt, G1, G2,
};
use crate::field::{fadd, fe_add, fe_mul, fmul, lemma_view_injective, Fe};
use vstd::prelude::*;

verus! {

/// `a + b * g` in the first group.
pub open spec fn fold1(a: (nat, nat, nat), b: (nat, nat, nat), g: nat) -> (nat, nat, nat) {
    g1_add(a, g1_scale(b, g))
}

/// `a + e * g + b * g^2` in the first group, for accumulated error terms.
pub open spec fn fold_err1(a: (nat, nat, nat), e: (nat, nat, nat), b: (nat, nat, nat), g: nat) -> (nat, nat, nat) {
    g1_add(g1_add(a, g1_scale(e, g)), g1_scale(b, fmul(g, g)))
}

/// `a + e * g + b * g^2` in the target group.
pub open spec fn fold_err_t(a: Seq<nat>, e: Seq<nat>, b: Seq<nat>, g: nat) -> Seq<nat> {
    gt_add(gt_add(a, gt_scale(e, g)), gt_scale(b, fmul(g, g)))
}

/// The challenge elements of the folded proof: each first-group element is
/// `a1 + a2 * g`, the flattened right matrix in the second group too, and
/// the power of the challenge in the second group is the second proof's.
pub open spec fn fiat_shamir_folded(
    r: MatMulAccFiatShamir<G1, G2>,
    a: MatMulAccFiatShamir<G1, G2>,
    b: MatMulAccFiatShamir<G1, G2>,
    g: nat,
) -> bool {
    &&& r.acc_left_x@ == fold1(a.acc_left_x@, b.acc_left_x@, g)
    &&& r.acc_left_Q_x@ == fold1(a.acc_left_Q_x@, b.acc_left_Q_x@, g)
    &&& r.acc_left_zero@ == fold1(a.acc_left_zero@, b.acc_left_zero@, g)
    &&& r.acc_left_zero_div@ == fold1(a.acc_left_zero_div@, b.acc_left_zero_div@, g)
    &&& r.acc_right_x@ == fold1(a.acc_right_x@, b.acc_right_x@, g)
    &&& r.acc_right_Q_x@ == fold1(a.acc_right_Q_x@, b.acc_right_Q_x@, g)
    &&& r.acc_right_zero_div@ == fold1(a.acc_right_zero_div@, b.acc_right_zero_div@, g)
    &&& r.acc_flat_A@ == fold1(a.acc_flat_A@, b.acc_flat_A@, g)
    &&& r.acc_flat_B@ == fold1(a.acc_flat_B@, b.acc_flat_B@, g)
    &&& r.acc_flat_C@ == fold1(a.acc_flat_C@, b.acc_flat_C@, g)
    &&& r.acc_flat_B_g2@ == g2_add(a.acc_flat_B_g2@, g2_scale(b.acc_flat_B_g2@, g))
    &&& r.acc_beta_pow_g2 == b.acc_beta_pow_g2
}

/// The prover's own folded elements: `a1 + a2 * g` for each.
pub open spec fn prover_only_folded(
    r: MatMulAccProofProverOnly<G1>,
    a: MatMulAccProofProverOnly<G1>,
    b: MatMulAccProofProverOnly<G1>,
    g: nat,
) -> bool {
    &&& r.acc_part_corr1@ == fold1(a.acc_part_corr1@, b.acc_part_corr1@, g)
    &&& r.acc_flat_A_no_blind@ == fold1(a.acc_flat_A_no_blind@, b.acc_flat_A_no_blind@, g)
    &&& r.acc_flat_B_no_blind@ == fold1(a.acc_flat_B_no_blind@, b.acc_flat_B_no_blind@, g)
    &&& r.acc_flat_A_r@ == fadd(a.acc_flat_A_r@, fmul(b.acc_flat_A_r@, g))
    &&& r.acc_flat_B_r@ == fadd(a.acc_flat_B_r@, fmul(b.acc_flat_B_r@, g))
}

/// The folded error terms: `a1 + errs * g + a2 * g^2` for each.
pub open spec fn acc_errs_folded(
    r: MatMulAccErrs<G1, Gt>,
    a: MatMulAccErrs<G1, Gt>,
    e: MatMulErrs<G1, Gt>,
    b: MatMulAccErrs<G1, Gt>,
    g: nat,
) -> bool {
    &&& r.acc_left_Q_x@ == fold_err1(a.acc_left_Q_x@, e.acc_left_Q_x@, b.acc_left_Q_x@, g)
    &&& r.acc_left_x@ == fold_err1(a.acc_left_x@, e.acc_left_x@, b.acc_left_x@, g)
    &&& r.acc_part_corr1@ == fold_err1(a.acc_part_corr1@, e.acc_part_corr1@, b.acc_part_corr1@, g)
    &&& r.acc_gt@ == fold_err_t(a.acc_gt@, e.acc_gt@, b.acc_gt@, g)
}

fn fold_g1(a: &G1, b: &G1, g: &Fe) -> (r: G1)
    ensures
        r@ == fold1(a@, b@, g@),
{
    g1_add_at(a, &g1_scale_at(b, g))
}

fn fold_fe(a: &Fe, b: &Fe, g: &Fe) -> (r: Fe)
    ensures
        r@ == fadd(a@, fmul(b@, g@)),
{
    fe_add(a, &fe_mul(b, g))
}

fn fold_err_g1(a: &G1, e: &G1, b: &G1, g: &Fe, g_sq: &Fe) -> (r: G1)
    requires
        g_sq@ == fmul(g@, g@),
    ensures
        r@ == fold_err1(a@, e@, b@, g@),
{
    g1_add_at(&g1_add_at(a, &g1_scale_at(e, g)), &g1_scale_at(b, g_sq))
}

/// Folds the accumulated proof `a2` into `a1` with the challenge `gamma`
/// and this step's error terms `errs`: every element becomes `a1 + a2 *
/// gamma`, but the power of the challenge in the second group, which is
/// `a2`'s; the factor is `a1.mu + gamma * a2.mu`; the step's error terms
/// are kept; and the accumulated error terms become `a1 + errs * gamma +
/// a2 * gamma^2`. Both proofs are the prover's, with its own elements.
pub fn matmul_accumulate(
    a1: &MatMulAccProof<G1, G2, Gt>,
    a2: &MatMulAccProof<G1, G2, Gt>,
    errs: &MatMulErrs<G1, Gt>,
    gamma: &Fe,
) -> (r: MatMulAccProof<G1, G2, Gt>)
    requires
        a1.prover_only is Some,
        a2.prover_only is Some,
    ensures
        fiat_shamir_folded(r.fiat_shamir, a1.fiat_shamir, a2.fiat_shamir, gamma@),
        forall|i: int| 0 <= i < 4 ==> (#[trigger] r.acc_corr[i])@ == fold1(a1.acc_corr[i]@, a2.acc_corr[i]@, gamma@),
        r.mu@ == fadd(a1.mu@, fmul(gamma@, a2.mu@)),
        r.prover_only is Some,
        prover_only_folded(r.prover_only->0, a1.prover_only->0, a2.prover_only->0, gamma@),
        r.errs == *errs,
        acc_errs_folded(r.acc_errs, a1.acc_errs, *errs, a2.acc_errs, gamma@),
{
    let g_sq = fe_mul(gamma, gamma);
    let e1 = &a1.acc_errs;
    let e2 = &a2.acc_errs;
    let acc_errs = MatMulAccErrs {
        acc_left_Q_x: fold_err_g1(&e1.acc_left_Q_x, &errs.acc_left_Q_x, &e2.acc_left_Q_x, gamma, &g_sq),
        acc_left_x: fold_err_g1(&e1.acc_left_x, &errs.acc_left_x, &e2.acc_left_x, gamma, &g_sq),
        acc_part_corr1: fold_err_g1(&e1.acc_part_corr1, &errs.acc_part_corr1, &e2.acc_part_corr1, gamma, &g_sq),
        acc_gt: gt_add_at(&gt_add_at(&e1.acc_gt, &gt_scale_at(&errs.acc_gt, gamma)), &gt_scale_at(&e2.acc_gt, &g_sq)),
    };
    let f1 = &a1.fiat_shamir;
    let f2 = &a2.fiat_shamir;
    let fiat_shamir = MatMulAccFiatShamir {
        acc_left_x: fold_g1(&f1.acc_left_x, &f2.acc_left_x, gamma),
        acc_left_Q_x: fold_g1(&f1.acc_left_Q_x, &f2.acc_left_Q_x, gamma),
        acc_left_zero: fold_g1(&f1.acc_left_zero, &f2.acc_left_zero, gamma),
        acc_left_zero_div: fold_g1(&f1.acc_left_zero_div, &f2.acc_left_zero_div, gamma),
        acc_right_x: fold_g1(&f1.acc_right_x, &f2.acc_right_x, gamma),
        acc_right_Q_x: fold_g1(&f1.acc_right_Q_x, &f2.acc_right_Q_x, gamma),
        acc_right_zero_div: fold_g1(&f1.acc_right_zero_div, &f2.acc_right_zero_div, gamma),
        acc_flat_A: fold_g1(&f1.acc_flat_A, &f2.acc_flat_A, gamma),
        acc_flat_B: fold_g1(&f1.acc_flat_B, &f2.acc_flat_B, gamma),
        acc_flat_C: fold_g1(&f1.acc_flat_C, &f2.acc_flat_C, gamma),
        acc_flat_B_g2: g2_add_at(&f1.acc_flat_B_g2, &g2_scale_at(&f2.acc_flat_B_g2, gamma)),
        acc_beta_pow_g2: f2.acc_beta_pow_g2,
    };
    let acc_corr = [
        fold_g1(&a1.acc_corr[0], &a2.acc_corr[0], gamma),
        fold_g1(&a1.acc_corr[1], &a2.acc_corr[1], gamma),
        fold_g1(&a1.acc_corr[2], &a2.acc_corr[2], gamma),
        fold_g1(&a1.acc_corr[3], &a2.acc_corr[3], gamma),
    ];
    let p1 = a1.prover_only.unwrap();
    let p2 = a2.prover_only.unwrap();
    let prover_only = MatMulAccProofProverOnly {
        acc_part_corr1: fold_g1(&p1.acc_part_corr1, &p2.acc_part_corr1, gamma),
        acc_flat_A_no_blind: fold_g1(&p1.acc_flat_A_no_blind, &p2.acc_flat_A_no_blind, gamma),
        acc_flat_B_no_blind: fold_g1(&p1.acc_flat_B_no_blind, &p2.acc_flat_B_no_blind, gamma),
        acc_flat_A_r: fold_fe(&p1.acc_flat_A_r, &p2.acc_flat_A_r, gamma),
        acc_flat_B_r: fold_fe(&p1.acc_flat_B_r, &p2.acc_flat_B_r, gamma),
    };
    let r = MatMulAccProof {
        fiat_shamir,
        acc_corr,
        mu: fe_add(&a1.mu, &fe_mul(gamma, &a2.mu)),
        prover_only: Some(prover_only),
        errs: *errs,
        acc_errs,
    };
    proof {
        assert(forall|i: int| 0 <= i < 4 ==> r.acc_corr[i] == acc_corr@[i]);
    }
    r
}

/// Whether `a + e * g + b * g^2`, computed from the affine points, is `z`.
pub open spec fn err_folds_to(a: (nat, nat, bool), e: (nat, nat, bool), b: (nat, nat, bool), g: nat, z: (nat, nat, bool)) -> bool {
    g1_affine(fold_err1(g1_proj_view(a), g1_proj_view(e), g1_proj_view(b), g)) == z
}

/// What `matmul_mira_verify` answers: every challenge element and
/// correction of `new` is `a1 + a2 * g`, its power of the challenge in the
/// second group is `a2`'s, its factor is `a1.mu + g * a2.mu`, and each of
/// its accumulated error terms is `a1 + new.errs * g + a2 * g^2`.
pub open spec fn mira_result(
    a1: MatMulAccProof<G1Affine, G2Affine, Gt>,
    a2: MatMulAccProof<G1Affine, G2Affine, Gt>,
    new: MatMulAccProof<G1Affine, G2Affine, Gt>,
    g: nat,
) -> bool {
    let (f1, f2, f) = (a1.fiat_shamir, a2.fiat_shamir, new.fiat_shamir);
    let (e1, e2, e) = (a1.acc_errs, a2.acc_errs, new.acc_errs);
    &&& folds_to(f1.acc_left_x@, f2.acc_left_x@, g, f.acc_left_x@)
    &&& folds_to(f1.acc_left_Q_x@, f2.acc_left_Q_x@, g, f.acc_left_Q_x@)
    &&& folds_to(f1.acc_left_zero@, f2.acc_left_zero@, g, f.acc_left_zero@)
    &&& folds_to(f1.acc_left_zero_div@, f2.acc_left_zero_div@, g, f.acc_left_zero_div@)
    &&& folds_to(f1.acc_right_x@, f2.acc_right_x@, g, f.acc_right_x@)
    &&& folds_to(f1.acc_right_Q_x@, f2.acc_right_Q_x@, g, f.acc_right_Q_x@)
    &&& folds_to(f1.acc_right_zero_div@, f2.acc_right_zero_div@, g, f.acc_right_zero_div@)
    &&& folds_to(f1.acc_flat_A@, f2.acc_flat_A@, g, f.acc_flat_A@)
    &&& folds_to(f1.acc_flat_B@, f2.acc_flat_B@, g, f.acc_flat_B@)
    &&& folds_to(f1.acc_flat_C@, f2.acc_flat_C@, g, f.acc_flat_C@)
    &&& folds_to2(f1.acc_flat_B_g2@, f2.acc_flat_B_g2@, g, f.acc_flat_B_g2@)
    &&& f.acc_beta_pow_g2@ == f2.acc_beta_pow_g2@
    &&& new.mu@ == fadd(a1.mu@, fmul(g, a2.mu@))
    &&& err_folds_to(e1.acc_left_Q_x@, new.errs.acc_left_Q_x@, e2.acc_left_Q_x@, g, e.acc_left_Q_x@)
    &&& err_folds_to(e1.acc_left_x@, new.errs.acc_left_x@, e2.acc_left_x@, g, e.acc_left_x@)
    &&& err_folds_to(e1.acc_part_corr1@, new.errs.acc_part_corr1@, e2.acc_part_corr1@, g, e.acc_part_corr1@)
    &&& fold_err_t(e1.acc_gt@, new.errs.acc_gt@, e2.acc_gt@, g) == e.acc_gt@
}

fn check_err_fold(a: &G1Affine, e: &G1Affine, b: &G1Affine, g: &Fe, g_sq: &Fe, z: &G1Affine) -> (r: bool)
    requires
        g_sq@ == fmul(g@, g@),
    ensures
        r == err_folds_to(a@, e@, b@, g@, z@),
{
    let s = fold_err_g1(&a.to_projective(), &e.to_projective(), &b.to_projective(), g, g_sq);
    g1_affine_at(&s).same(z)
}

fn check_fold2(y: &G2Affine, x: &G2Affine, g: &Fe, z: &G2Affine) -> (r: bool)
    ensures
        r == folds_to2(y@, x@, g@, z@),
{
    let t = g2_scale_at(&x.to_projective(), g);
    g2_affine_at(&g2_add_at(&y.to_projective(), &t)).same(z)
}

/// Whether two target-group elements have the same coordinates.
fn gt_same(a: &Gt, b: &Gt) -> (r: bool)
    ensures
        r == (a@ == b@),
{
    let mut i: usize = 0;
    while i < 12
        invariant
            i <= 12,
            forall|k: int| 0 <= k < i ==> a@[k] == b@[k],
        decreases 12 - i,
    {
        proof {
            Fq::lemma_view_injective(a.c[i as int], b.c[i as int]);
        }
        if !(a.c[i] == b.c[i]) {
            proof {
                assert(a@[i as int] != b@[i as int]);
            }
            return false;
        }
        i = i + 1;
    }
    proof {
        assert(a@ =~= b@);
    }
    true
}

/// Checks, as the verifier, that `new` folds `a2` into `a1` with the
/// folding challenge `gamma` (drawn by the caller from the transcript of
/// both proofs' challenge elements and `new`'s error terms).
pub fn matmul_mira_verify(
    a1: &MatMulAccProof<G1Affine, G2Affine, Gt>,
    a2: &MatMulAccProof<G1Affine, G2Affine, Gt>,
    new: &MatMulAccProof<G1Affine, G2Affine, Gt>,
    gamma: &Fe,
) -> (r: bool)
    ensures
        r == mira_result(*a1, *a2, *new, gamma@),
{
    let g_sq = fe_mul(gamma, gamma);
    let (f1, f2, f) = (&a1.fiat_shamir, &a2.fiat_shamir, &new.fiat_shamir);
    let mut r = check_fold(&f1.acc_left_x, &f2.acc_left_x, gamma, &f.acc_left_x);
    r = check_fold(&f1.acc_left_Q_x, &f2.acc_left_Q_x, gamma, &f.acc_left_Q_x) && r;
    r = check_fold(&f1.acc_left_zero, &f2.acc_left_zero, gamma, &f.acc_left_zero) && r;
    r = check_fold(&f1.acc_left_zero_div, &f2.acc_left_zero_div, gamma, &f.acc_left_zero_div) && r;
    r = check_fold(&f1.acc_right_x, &f2.acc_right_x, gamma, &f.acc_right_x) && r;
    r = check_fold(&f1.acc_right_Q_x, &f2.acc_right_Q_x, gamma, &f.acc_right_Q_x) && r;
    r = check_fold(&f1.acc_right_zero_div, &f2.acc_right_zero_div, gamma, &f.acc_right_zero_div) && r;
    r = check_fold(&f1.acc_flat_A, &f2.acc_flat_A, gamma, &f.acc_flat_A) && r;
    r = check_fold(&f1.acc_flat_B, &f2.acc_flat_B, gamma, &f.acc_flat_B) && r;
    r = check_fold(&f1.acc_flat_C, &f2.acc_flat_C, gamma, &f.acc_flat_C) && r;
    r = check_fold2(&f1.acc_flat_B_g2, &f2.acc_flat_B_g2, gamma, &f.acc_flat_B_g2) && r;
    r = f.acc_beta_pow_g2.same(&f2.acc_beta_pow_g2) && r;
    let mu = fe_add(&a1.mu, &fe_mul(gamma, &a2.mu));
    proof {
        lemma_view_injective(mu, new.mu);
    }
    r = new.mu == mu && r;
    let (e1, e2, e, ne) = (&a1.acc_errs, &a2.acc_errs, &new.acc_errs, &new.errs);
    r = check_err_fold(&e1.acc_left_Q_x, &ne.acc_left_Q_x, &e2.acc_left_Q_x, gamma, &g_sq, &e.acc_left_Q_x) && r;
    r = check_err_fold(&e1.acc_left_x, &ne.acc_left_x, &e2.acc_left_x, gamma, &g_sq, &e.acc_left_x) && r;
    r = check_err_fold(&e1.acc_part_corr1, &ne.acc_part_corr1, &e2.acc_part_corr1, gamma, &g_sq, &e.acc_part_corr1) && r;
    let t = gt_add_at(&gt_add_at(&e1.acc_gt, &gt_scale_at(&ne.acc_gt, gamma)), &gt_scale_at(&e2.acc_gt, &g_sq));
    r = gt_same(&t, &e.acc_gt) && r;
    r
}

/// The blinding cross terms of `part_corr1`'s error, for the prover's own
/// elements `p` of the accumulated proof and `q` of the new one:
/// `p.A * q.B_r + q.A * p.B_r + p.B * q.A_r + q.B * p.A_r`, added in order
/// onto `start`.
pub open spec fn cross_terms(start: (nat, nat, nat), p: MatMulAccProofProverOnly<G1>, q: MatMulAccProofProverOnly<G1>) -> (nat, nat, nat) {
    let t1 = g1_add(start, g1_scale(p.acc_flat_A_no_blind@, q.acc_flat_B_r@));
    let t2 = g1_add(t1, g1_scale(q.acc_flat_A_no_blind@, p.acc_flat_B_r@));
    let t3 = g1_add(t2, g1_scale(p.acc_flat_B_no_blind@, q.acc_flat_A_r@));
    g1_add(t3, g1_scale(q.acc_flat_B_no_blind@, p.acc_flat_A_r@))
}

/// The error terms of folding `a2` into `a1`: `x1 * mu2 + x2 * mu1` for
/// the left commitment and its quotient; for `part_corr1` the same plus
/// the blinding cross terms and `y1p * (A_r2 * B_r1 + B_r2 * A_r1)`; and
/// `acc_gt`, the pairing of the two flattened matrices across the proofs.
pub open spec fn mira_errs_are(
    r: MatMulErrs<G1, Gt>,
    y1p: (nat, nat, nat),
    a1: MatMulAccProof<G1, G2, Gt>,
    a2: MatMulAccProof<G1, G2, Gt>,
    acc_gt: Seq<nat>,
) -> bool {
    let (f1, f2) = (a1.fiat_shamir, a2.fiat_shamir);
    let (p, q) = (a1.prover_only->0, a2.prover_only->0);
    let (mu1, mu2) = (a1.mu@, a2.mu@);
    let own = g1_add(g1_scale(p.acc_part_corr1@, mu2), g1_scale(q.acc_part_corr1@, mu1));
    let blind = fadd(fmul(q.acc_flat_A_r@, p.acc_flat_B_r@), fmul(q.acc_flat_B_r@, p.acc_flat_A_r@));
    &&& r.acc_left_Q_x@ == g1_add(g1_scale(f1.acc_left_Q_x@, mu2), g1_scale(f2.acc_left_Q_x@, mu1))
    &&& r.acc_left_x@ == g1_add(g1_scale(f1.acc_left_x@, mu2), g1_scale(f2.acc_left_x@, mu1))
    &&& r.acc_part_corr1@ == g1_add(cross_terms(own, p, q), g1_scale(y1p, blind))
    &&& r.acc_gt@ == acc_gt
}

/// The error terms of folding the prover's proof `a2` into its accumulated
/// proof `a1`, with the blinding generator `y1p`; `acc_gt` is the pairing
/// `e(a2.A, a1.B) + e(a1.A, a2.B)` of the flattened matrices.
pub fn matmul_mira_errs(
    y1p: &G1,
    a1: &MatMulAccProof<G1, G2, Gt>,
    a2: &MatMulAccProof<G1, G2, Gt>,
    acc_gt: &Gt,
) -> (r: MatMulErrs<G1, Gt>)
    requires
        a1.prover_only is Some,
        a2.prover_only is Some,
    ensures
        mira_errs_are(r, y1p@, *a1, *a2, acc_gt@),
{
    let (f1, f2) = (&a1.fiat_shamir, &a2.fiat_shamir);
    let p = a1.prover_only.unwrap();
    let q = a2.prover_only.unwrap();
    let own = g1_add_at(&g1_scale_at(&p.acc_part_corr1, &a2.mu), &g1_scale_at(&q.acc_part_corr1, &a1.mu));
    let t1 = g1_add_at(&own, &g1_scale_at(&p.acc_flat_A_no_blind, &q.acc_flat_B_r));
    let t2 = g1_add_at(&t1, &g1_scale_at(&q.acc_flat_A_no_blind, &p.acc_flat_B_r));
    let t3 = g1_add_at(&t2, &g1_scale_at(&p.acc_flat_B_no_blind, &q.acc_flat_A_r));
    let t4 = g1_add_at(&t3, &g1_scale_at(&q.acc_flat_B_no_blind, &p.acc_flat_A_r));
    let blind = fe_add(&fe_mul(&q.acc_flat_A_r, &p.acc_flat_B_r), &fe_mul(&q.acc_flat_B_r, &p.acc_flat_A_r));
    MatMulErrs {
        acc_left_Q_x: g1_add_at(&g1_scale_at(&f1.acc_left_Q_x, &a2.mu), &g1_scale_at(&f2.acc_left_Q_x, &a1.mu)),
        acc_left_x: g1_add_at(&g1_scale_at(&f1.acc_left_x, &a2.mu), &g1_scale_at(&f2.acc_left_x, &a1.mu)),
        acc_part_corr1: g1_add_at(&t4, &g1_scale_at(y1p, &blind)),
        acc_gt: *acc_gt,
    }
}

/// The prover's folding step: the error terms of folding `a2` into `a1`
/// (with the pairing `acc_gt` of the flattened matrices across the two
/// proofs), and the folded proof for the challenge `gamma` that the caller
/// draws from the transcript of both proofs' challenge elements and those
/// error terms.
pub fn matmul_mira_prove(
    y1p: &G1,
    a1: &MatMulAccProof<G1, G2, Gt>,
    a2: &MatMulAccProof<G1, G2, Gt>,
    acc_gt: &Gt,
    gamma: &Fe,
) -> (r: MatMulAccProof<G1, G2, Gt>)
    requires
        a1.prover_only is Some,
        a2.prover_only is Some,
    ensures
        mira_errs_are(r.errs, y1p@, *a1, *a2, acc_gt@),
        fiat_shamir_folded(r.fiat_shamir, a1.fiat_shamir, a2.fiat_shamir, gamma@),
        forall|i: int| 0 <= i < 4 ==> (#[trigger] r.acc_corr[i])@ == fold1(a1.acc_corr[i]@, a2.acc_corr[i]@, gamma@),
        r.mu@ == fadd(a1.mu@, fmul(gamma@, a2.mu@)),
        r.prover_only is Some,
        prover_only_folded(r.prover_only->0, a1.prover_only->0, a2.prover_only->0, gamma@),
        acc_errs_folded(r.acc_errs, a1.acc_errs, r.errs, a2.acc_errs, gamma@),
{
    let errs = matmul_mira_errs(y1p, a1, a2, acc_gt);
    matmul_accumulate(a1, a2, &errs, gamma)
}

} // verus!
