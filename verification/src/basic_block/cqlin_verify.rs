//! The verifier's check of one folding step of linear-layer lookup proofs:
//! the challenges of the proof, and that the new accumulator is the old one
//! plus the proof times the folding challenge, error terms included.
use super::alternating::calc_pow;
use super::cq_verify::acc_factor;
use crate::accumulator::{acc_proof_to_cqlin_acc, cqlin_acc_proof_fits, ErrTerm};
use crate::curve::{
    g1_add, g1_add_at, g1_affine, g1_affine_at, g1_proj_view, g1_scale, g1_scale_at, g1_views, g2_add, g2_add_at, g2_affine,
    g2_affine_at, g2_proj_view, g2_scale, g2_scale_at, msm, msm_upto, G1Affine, G1, G2Affine,
};
use super::transpose::fpow;
use crate::field::{fadd, fe_add, fe_mul, fe_views, fmul, Fe};
use vstd::prelude::*;

verus! {

/// The views of affine points of the first group.
pub open spec fn a1_views(s: Seq<G1Affine>) -> Seq<(nat, nat, bool)> {
    s.map_values(|p: G1Affine| p@)
}

/// The views of affine points of the second group.
pub open spec fn a2_views(s: Seq<G2Affine>) -> Seq<((nat, nat), (nat, nat), bool)> {
    s.map_values(|p: G2Affine| p@)
}

/// `y + x * g`, in affine form, is `z`.
pub open spec fn folds_to(y: (nat, nat, bool), x: (nat, nat, bool), g: nat, z: (nat, nat, bool)) -> bool {
    g1_affine(g1_add(g1_proj_view(y), g1_scale(g1_proj_view(x), g))) == z
}

/// `alpha^1 * c[0] + ... + alpha^l * c[l-1]` over the first `l`
/// commitments, in affine form.
pub open spec fn flat_commitment(c: Seq<(nat, nat, bool)>, alpha: nat, l: nat) -> (nat, nat, bool) {
    g1_affine(
        msm_upto(
            Seq::new(l, |i: int| g1_proj_view(c[i])),
            Seq::new(l, |i: int| fpow(alpha, (i + 1) as nat)),
            l,
        ),
    )
}

/// The checks of the challenges: `gamma` is the first sumcheck value, and
/// each next one is the square of the one before.
pub open spec fn challenges_ok(f: Seq<nat>, gamma: nat, log_n: int) -> bool {
    gamma == f[0] && forall|i: int| 0 <= i < log_n ==> fmul(#[trigger] f[i], f[i]) == f[i + 1]
}

/// The inputs `cqlin_acc_verify` accepts: a proof of 15 and 1 points and at
/// least `log_n + 1` values, a non-empty new accumulated proof, a previous
/// one that is non-empty or, at the first step, empty with a new factor of
/// one, and at least as many output commitments as (at least one) input
/// ones.
pub open spec fn cqlin_verify_accepts(
    inputs: Seq<G1Affine>,
    outputs: Seq<G1Affine>,
    log_n: nat,
    prev: (Seq<G1Affine>, Seq<G2Affine>, Seq<Fe>),
    acc: (Seq<G1Affine>, Seq<G2Affine>, Seq<Fe>),
    proof: (Seq<G1Affine>, Seq<G2Affine>, Seq<Fe>),
) -> bool {
    &&& log_n <= 64
    &&& proof.0.len() == 15 && proof.1.len() == 1 && proof.2.len() >= log_n + 1
    &&& acc.0.len() > 0
    &&& (prev.0.len() > 0 || acc_factor(acc.2) == 1)
    &&& cqlin_acc_proof_fits(prev.0, prev.1, prev.2, log_n as int, false)
    &&& cqlin_acc_proof_fits(acc.0, acc.1, acc.2, log_n as int, false)
    &&& 1 <= inputs.len() <= outputs.len()
}

/// The folding checks past the challenges: every accumulated point and
/// value but the blinding ones (places 9 to 14) is the old one plus the
/// proof's times `ag`; the factor grows by `ag`; and the last three points of
/// each accumulated group error term, and each accumulated round error, are
/// the old ones plus this step's times `ag`.
pub open spec fn folding_ok(
    x: Seq<(nat, nat, bool)>,
    mq: ((nat, nat), (nat, nat), bool),
    f: Seq<nat>,
    pa: Seq<(nat, nat, bool)>,
    pq: Seq<((nat, nat), (nat, nat), bool)>,
    pf: Seq<nat>,
    aa: Seq<(nat, nat, bool)>,
    aq: Seq<((nat, nat), (nat, nat), bool)>,
    af: Seq<nat>,
    log_n: int,
    ag: nat,
) -> bool {
    let n = log_n + 1;
    let ep = pq.len() - 3;
    let ea = aq.len() - 3;
    &&& forall|i: int| 0 <= i < 17 && !(9 <= i < 15) ==> folds_to(pa[i], #[trigger] x[i], ag, aa[i])
    &&& g2_affine(g2_add(g2_proj_view(pq[0]), g2_scale(g2_proj_view(mq), ag))) == aq[0]
    &&& forall|i: int| 0 <= i < n ==> fadd(pf[i], fmul(#[trigger] f[i], ag)) == af[i]
    &&& fadd(pf[pf.len() - 1], ag) == af[af.len() - 1]
    &&& forall|j: int| 0 <= j < 3 ==> folds_to(pa[28 + ep + j], #[trigger] aa[19 + j], ag, aa[28 + ea + j])
    &&& forall|j: int| 0 <= j < 3 ==> folds_to(pa[31 + ep + j], #[trigger] aa[22 + j], ag, aa[31 + ea + j])
    &&& forall|j: int| 0 <= j < 3 ==> folds_to(pa[34 + ep + j], #[trigger] aa[25 + j], ag, aa[34 + ea + j])
    &&& forall|i: int| 0 <= i < log_n ==> fadd(pf[n + log_n + i], fmul(#[trigger] af[n + i], ag)) == af[n + log_n + i]
}

/// Whether `y + x * g`, in affine form, is `z`.
pub(crate) fn check_fold(y: &G1Affine, x: &G1Affine, g: &Fe, z: &G1Affine) -> (r: bool)
    ensures
        r == folds_to(y@, x@, g@, z@),
{
    let t = g1_scale_at(&x.to_projective(), g);
    let s = g1_add_at(&y.to_projective(), &t);
    let a = g1_affine_at(&s);
    a.same(z)
}

/// The challenge checks.
pub(crate) fn check_challenges(f: &Vec<Fe>, gamma: &Fe, log_n: usize) -> (r: bool)
    requires
        f@.len() >= log_n + 1,
    ensures
        r == challenges_ok(fe_views(f@), gamma@, log_n as int),
{
    let mut ok = gamma.eq(&f[0]);
    let mut i: usize = 0;
    while i < log_n
        invariant
            f@.len() >= log_n + 1,
            i <= log_n,
            ok == (gamma@ == fe_views(f@)[0] && forall|k: int| 0 <= k < i ==> fmul(#[trigger] fe_views(f@)[k], fe_views(f@)[k]) == fe_views(f@)[k + 1]),
        decreases log_n - i,
    {
        let sq = fe_mul(&f[i], &f[i]);
        let c = sq.eq(&f[i + 1]);
        proof {
            assert(fe_views(f@)[i as int] == f@[i as int]@ && fe_views(f@)[i + 1] == f@[i + 1]@);
        }
        ok = ok && c;
        i = i + 1;
    }
    ok
}

/// The first-group folding checks of the accumulated points.
fn check_points(x: &Vec<G1Affine>, pa: &Vec<G1Affine>, aa: &Vec<G1Affine>, g: &Fe) -> (r: bool)
    requires
        x@.len() == 17,
        pa@.len() >= 17,
        aa@.len() >= 17,
    ensures
        r == forall|i: int| 0 <= i < 17 && !(9 <= i < 15) ==> folds_to(a1_views(pa@)[i], #[trigger] a1_views(x@)[i], g@, a1_views(aa@)[i]),
{
    let mut ok = true;
    let mut i: usize = 0;
    while i < 17
        invariant
            x@.len() == 17,
            pa@.len() >= 17,
            aa@.len() >= 17,
            i <= 17,
            ok == forall|k: int| 0 <= k < i && !(9 <= k < 15) ==> folds_to(a1_views(pa@)[k], #[trigger] a1_views(x@)[k], g@, a1_views(aa@)[k]),
        decreases 17 - i,
    {
        proof {
            assert(a1_views(pa@)[i as int] == pa@[i as int]@);
            assert(a1_views(x@)[i as int] == x@[i as int]@);
            assert(a1_views(aa@)[i as int] == aa@[i as int]@);
        }
        if !(9 <= i && i < 15) {
            let c = check_fold(&pa[i], &x[i], g, &aa[i]);
            ok = ok && c;
        }
        i = i + 1;
    }
    ok
}

/// The folding checks of the last three points of an error term: `y` the
/// old accumulated term, `x` this step's, `z` the new accumulated one.
fn check_last3(y: &Vec<G1Affine>, x: &Vec<G1Affine>, z: &Vec<G1Affine>, g: &Fe) -> (r: bool)
    requires
        y@.len() >= 3,
        x@.len() >= 3,
        z@.len() >= 3,
    ensures
        r == forall|j: int|
            0 <= j < 3 ==> folds_to(
                a1_views(y@)[y@.len() - 3 + j],
                #[trigger] a1_views(x@)[x@.len() - 3 + j],
                g@,
                a1_views(z@)[z@.len() - 3 + j],
            ),
{
    let ly = y.len() - 3;
    let lx = x.len() - 3;
    let lz = z.len() - 3;
    let c0 = check_fold(&y[ly], &x[lx], g, &z[lz]);
    let c1 = check_fold(&y[ly + 1], &x[lx + 1], g, &z[lz + 1]);
    let c2 = check_fold(&y[ly + 2], &x[lx + 2], g, &z[lz + 2]);
    proof {
        let ok = forall|j: int|
            0 <= j < 3 ==> folds_to(
                a1_views(y@)[y@.len() - 3 + j],
                #[trigger] a1_views(x@)[x@.len() - 3 + j],
                g@,
                a1_views(z@)[z@.len() - 3 + j],
            );
        if c0 && c1 && c2 {
            assert forall|j: int| 0 <= j < 3 implies folds_to(
                a1_views(y@)[y@.len() - 3 + j],
                #[trigger] a1_views(x@)[x@.len() - 3 + j],
                g@,
                a1_views(z@)[z@.len() - 3 + j],
            ) by {
                if j == 0 {} else if j == 1 {} else {}
            }
        } else {
            if !c0 {
                assert(!folds_to(a1_views(y@)[y@.len() - 3 + 0], a1_views(x@)[x@.len() - 3 + 0], g@, a1_views(z@)[z@.len() - 3 + 0]));
            } else if !c1 {
                assert(!folds_to(a1_views(y@)[y@.len() - 3 + 1], a1_views(x@)[x@.len() - 3 + 1], g@, a1_views(z@)[z@.len() - 3 + 1]));
            } else {
                assert(!folds_to(a1_views(y@)[y@.len() - 3 + 2], a1_views(x@)[x@.len() - 3 + 2], g@, a1_views(z@)[z@.len() - 3 + 2]));
            }
        }
    }
    c0 && c1 && c2
}

/// The commitment `sum alpha^i c[i]` over the first `l` commitments, in
/// affine form.
pub(crate) fn flatten_commitments(c: &Vec<G1Affine>, alpha: &Fe, l: usize) -> (r: G1Affine)
    requires
        1 <= l <= c@.len(),
    ensures
        r@ == flat_commitment(a1_views(c@), alpha@, l as nat),
{
    let pw = calc_pow(*alpha, l);
    let mut bases: Vec<G1> = Vec::new();
    let mut k: usize = 0;
    while k < l
        invariant
            1 <= l <= c@.len(),
            k <= l,
            bases@.len() == k,
            forall|k2: int| 0 <= k2 < k ==> (#[trigger] bases@[k2])@ == g1_proj_view(a1_views(c@)[k2]),
        decreases l - k,
    {
        bases.push(c[k].to_projective());
        k = k + 1;
    }
    let s = msm(&bases, &pw);
    proof {
        assert(g1_views(bases@) =~= Seq::new(l as nat, |i: int| g1_proj_view(a1_views(c@)[i])));
        assert(fe_views(pw@) =~= Seq::new(l as nat, |i: int| fpow(alpha@, (i + 1) as nat)));
    }
    g1_affine_at(&s)
}

/// The folding checks of the accumulated values: `y[i] + x[i] * g == z[i]`.
pub(crate) fn check_values(x: &Vec<Fe>, y: &Vec<Fe>, z: &Vec<Fe>, n: usize, g: &Fe) -> (r: bool)
    requires
        x@.len() >= n,
        y@.len() >= n,
        z@.len() >= n,
    ensures
        r == forall|i: int| 0 <= i < n ==> fadd(fe_views(y@)[i], fmul(#[trigger] fe_views(x@)[i], g@)) == fe_views(z@)[i],
{
    let mut ok = true;
    let mut i: usize = 0;
    while i < n
        invariant
            x@.len() >= n,
            y@.len() >= n,
            z@.len() >= n,
            i <= n,
            ok == forall|k: int| 0 <= k < i ==> fadd(fe_views(y@)[k], fmul(#[trigger] fe_views(x@)[k], g@)) == fe_views(z@)[k],
        decreases n - i,
    {
        let v = fe_add(&y[i], &fe_mul(&x[i], g));
        let c = v.eq(&z[i]);
        proof {
            assert(fe_views(x@)[i as int] == x@[i as int]@ && fe_views(y@)[i as int] == y@[i as int]@ && fe_views(z@)[i as int]
                == z@[i as int]@);
        }
        ok = ok && c;
        i = i + 1;
    }
    ok
}

/// The folding checks of the round errors: the old accumulated error plus
/// this step's times `g` is the new accumulated error, for each round.
fn check_rounds(
    old: &Vec<ErrTerm<G1Affine, G2Affine>>,
    step: &Vec<ErrTerm<G1Affine, G2Affine>>,
    new: &Vec<ErrTerm<G1Affine, G2Affine>>,
    log_n: usize,
    g: &Fe,
) -> (r: bool)
    requires
        log_n <= 64,
        old@.len() == 3 + log_n,
        step@.len() == 3 + log_n,
        new@.len() == 3 + log_n,
        forall|i: int|
            3 <= i < 3 + log_n ==> (#[trigger] old@[i]).2@.len() == 1 && step@[i].2@.len() == 1 && new@[i].2@.len() == 1,
    ensures
        r == forall|i: int|
            3 <= i < 3 + log_n ==> fadd((#[trigger] old@[i]).2@[0]@, fmul(step@[i].2@[0]@, g@)) == new@[i].2@[0]@,
{
    let mut ok = true;
    let mut i: usize = 3;
    while i < 3 + log_n
        invariant
            log_n <= 64,
            old@.len() == 3 + log_n,
            step@.len() == 3 + log_n,
            new@.len() == 3 + log_n,
            forall|i2: int|
                3 <= i2 < 3 + log_n ==> (#[trigger] old@[i2]).2@.len() == 1 && step@[i2].2@.len() == 1 && new@[i2].2@.len() == 1,
            3 <= i <= 3 + log_n,
            ok == forall|k: int| 3 <= k < i ==> fadd((#[trigger] old@[k]).2@[0]@, fmul(step@[k].2@[0]@, g@)) == new@[k].2@[0]@,
        decreases 3 + log_n - i,
    {
        let v = fe_add(&old[i].2[0], &fe_mul(&step[i].2[0], g));
        let c = v.eq(&new[i].2[0]);
        ok = ok && c;
        i = i + 1;
    }
    ok
}

/// The checks of the last three points of error terms, read in the terms
/// and read in the proofs that hold them, agree.
proof fn lemma_last3(
    y: Seq<(nat, nat, bool)>,
    x: Seq<(nat, nat, bool)>,
    z: Seq<(nat, nat, bool)>,
    ys: Seq<(nat, nat, bool)>,
    xs: Seq<(nat, nat, bool)>,
    zs: Seq<(nat, nat, bool)>,
    oy: int,
    ox: int,
    oz: int,
    g: nat,
)
    requires
        y.len() >= 3 && x.len() >= 3 && z.len() >= 3,
        y.subrange(y.len() - 3, y.len() as int) == ys.subrange(oy, oy + 3),
        x.subrange(x.len() - 3, x.len() as int) == xs.subrange(ox, ox + 3),
        z.subrange(z.len() - 3, z.len() as int) == zs.subrange(oz, oz + 3),
        0 <= oy && oy + 3 <= ys.len() && 0 <= ox && ox + 3 <= xs.len() && 0 <= oz && oz + 3 <= zs.len(),
    ensures
        (forall|j: int| 0 <= j < 3 ==> folds_to(y[y.len() - 3 + j], #[trigger] x[x.len() - 3 + j], g, z[z.len() - 3 + j]))
            == (forall|j: int| 0 <= j < 3 ==> folds_to(ys[oy + j], #[trigger] xs[ox + j], g, zs[oz + j])),
{
    assert forall|j: int| 0 <= j < 3 implies y[y.len() - 3 + j] == ys[oy + j] && #[trigger] x[x.len() - 3 + j] == xs[ox + j] && z[z.len() - 3 + j]
        == zs[oz + j] by {
        assert(y.subrange(y.len() - 3, y.len() as int)[j] == ys.subrange(oy, oy + 3)[j]);
        assert(x.subrange(x.len() - 3, x.len() as int)[j] == xs.subrange(ox, ox + 3)[j]);
        assert(z.subrange(z.len() - 3, z.len() as int)[j] == zs.subrange(oz, oz + 3)[j]);
    }
    if forall|j: int| 0 <= j < 3 ==> folds_to(y[y.len() - 3 + j], #[trigger] x[x.len() - 3 + j], g, z[z.len() - 3 + j]) {
        assert forall|j: int| 0 <= j < 3 implies folds_to(ys[oy + j], #[trigger] xs[ox + j], g, zs[oz + j]) by {
            assert(folds_to(y[y.len() - 3 + j], x[x.len() - 3 + j], g, z[z.len() - 3 + j]));
        }
    }
    if forall|j: int| 0 <= j < 3 ==> folds_to(ys[oy + j], #[trigger] xs[ox + j], g, zs[oz + j]) {
        assert forall|j: int| 0 <= j < 3 implies folds_to(y[y.len() - 3 + j], #[trigger] x[x.len() - 3 + j], g, z[z.len() - 3 + j]) by {
            assert(folds_to(ys[oy + j], xs[ox + j], g, zs[oz + j]));
        }
    }
}

/// What `cqlin_acc_verify` answers: the challenge checks, and, unless the
/// old accumulator is fresh (factor zero) and the new one is the first
/// proof itself (factor one), the folding checks, with the flattened input
/// and output commitments as the proof's last two points.
pub open spec fn cqlin_verify_result(
    inputs: Seq<G1Affine>,
    outputs: Seq<G1Affine>,
    log_n: int,
    prev: (Seq<G1Affine>, Seq<G2Affine>, Seq<Fe>),
    acc: (Seq<G1Affine>, Seq<G2Affine>, Seq<Fe>),
    proof: (Seq<G1Affine>, Seq<G2Affine>, Seq<Fe>),
    alpha: nat,
    gamma: nat,
    acc_gamma: nat,
) -> bool {
    let f = fe_views(proof.2);
    let (pf, af) = (fe_views(prev.2), fe_views(acc.2));
    let chal = challenges_ok(f, gamma, log_n);
    if acc_factor(prev.2) == 0 && acc_factor(acc.2) == 1 {
        chal
    } else {
        let l = inputs.len();
        let x = a1_views(proof.0) + seq![
            flat_commitment(a1_views(inputs), alpha, l),
            flat_commitment(a1_views(outputs), alpha, l),
        ];
        chal && folding_ok(
            x,
            a2_views(proof.1)[0],
            f,
            a1_views(prev.0),
            a2_views(prev.1),
            pf,
            a1_views(acc.0),
            a2_views(acc.1),
            af,
            log_n,
            acc_gamma,
        )
    }
}

/// Checks one folding step of linear-layer lookup proofs with `log_n`
/// sumcheck rounds, as the verifier sees it: `inputs` and `outputs` are the
/// commitments of the block's input and output elements, `alpha` the random
/// combination drawn once for all such blocks, `gamma` the proof's
/// challenge, and `acc_gamma` the folding challenge (the last two drawn by
/// the caller from the transcript). The answer is always `Some`.
#[verifier::rlimit(40)]
pub fn cqlin_acc_verify(
    inputs: &Vec<G1Affine>,
    outputs: &Vec<G1Affine>,
    log_n: usize,
    prev: (&Vec<G1Affine>, &Vec<G2Affine>, &Vec<Fe>),
    acc: (&Vec<G1Affine>, &Vec<G2Affine>, &Vec<Fe>),
    proof: (&Vec<G1Affine>, &Vec<G2Affine>, &Vec<Fe>),
    alpha: &Fe,
    gamma: &Fe,
    acc_gamma: &Fe,
) -> (r: Option<bool>)
    requires
        cqlin_verify_accepts(inputs@, outputs@, log_n as nat, (prev.0@, prev.1@, prev.2@), (acc.0@, acc.1@, acc.2@), (proof.0@, proof.1@, proof.2@)),
    ensures
        r == Some(
            cqlin_verify_result(
                inputs@,
                outputs@,
                log_n as int,
                (prev.0@, prev.1@, prev.2@),
                (acc.0@, acc.1@, acc.2@),
                (proof.0@, proof.1@, proof.2@),
                alpha@,
                gamma@,
                acc_gamma@,
            ),
        ),
{
    let ph = acc_proof_to_cqlin_acc(prev, log_n, false);
    let ah = acc_proof_to_cqlin_acc(acc, log_n, false);
    let chal = check_challenges(proof.2, gamma, log_n);
    proof {
        assert(acc_factor(prev.2@) == ph.mu@);
        assert(acc_factor(acc.2@) == ah.mu@);
    }
    if ph.mu.eq(&Fe::zero()) && ah.mu.eq(&Fe::one()) {
        return Some(chal);
    }
    proof {
        if prev.0@.len() == 0 {
            assert(ph.mu@ == 0);
        }
        assert(prev.0@.len() > 0);
    }
    let l = inputs.len();
    let fa = flatten_commitments(inputs, alpha, l);
    let fc = flatten_commitments(outputs, alpha, l);
    let mut x: Vec<G1Affine> = Vec::new();
    let mut k: usize = 0;
    while k < 15
        invariant
            proof.0@.len() == 15,
            k <= 15,
            x@ == proof.0@.subrange(0, k as int),
        decreases 15 - k,
    {
        x.push(proof.0[k]);
        k = k + 1;
        proof {
            assert(x@ =~= proof.0@.subrange(0, k as int));
        }
    }
    x.push(fa);
    x.push(fc);
    let c_g1 = check_points(&x, &ph.acc_g1, &ah.acc_g1, acc_gamma);
    let t2 = g2_scale_at(&proof.1[0].to_projective(), acc_gamma);
    let z2 = g2_affine_at(&g2_add_at(&ph.acc_g2[0].to_projective(), &t2));
    let c_g2 = z2.same(&ah.acc_g2[0]);
    let c_fr = check_values(proof.2, &ph.acc_fr, &ah.acc_fr, log_n + 1, acc_gamma);
    let c_mu = fe_add(&ph.mu, acc_gamma).eq(&ah.mu);
    let c_e0 = check_last3(&ph.acc_errs[0].0, &ah.errs[0].0, &ah.acc_errs[0].0, acc_gamma);
    let c_e1 = check_last3(&ph.acc_errs[1].0, &ah.errs[1].0, &ah.acc_errs[1].0, acc_gamma);
    let c_e2 = check_last3(&ph.acc_errs[2].0, &ah.errs[2].0, &ah.acc_errs[2].0, acc_gamma);
    proof {
        let pf = fe_views(prev.2@);
        let af = fe_views(acc.2@);
        let n = log_n + 1;
        assert forall|i: int| 3 <= i < 3 + log_n implies (#[trigger] ph.acc_errs@[i]).2@.len() == 1 && ah.errs@[i].2@.len() == 1
            && ah.acc_errs@[i].2@.len() == 1 && ph.acc_errs@[i].2@[0]@ == pf[n + log_n + (i - 3)] && ah.errs@[i].2@[0]@ == af[n
            + (i - 3)] && ah.acc_errs@[i].2@[0]@ == af[n + log_n + (i - 3)] by {
            let i0 = i - 3;
            assert(ph.acc_errs@[3 + i0] == ph.acc_errs@[i]);
            assert(ah.errs@[3 + i0] == ah.errs@[i]);
            assert(ah.acc_errs@[3 + i0] == ah.acc_errs@[i]);
            assert(fe_views(ph.acc_errs@[i].2@)[0] == ph.acc_errs@[i].2@[0]@);
            assert(fe_views(ah.errs@[i].2@)[0] == ah.errs@[i].2@[0]@);
            assert(fe_views(ah.acc_errs@[i].2@)[0] == ah.acc_errs@[i].2@[0]@);
        }
    }
    let c_r = check_rounds(&ph.acc_errs, &ah.errs, &ah.acc_errs, log_n, acc_gamma);
    proof {
        let xv = a1_views(proof.0@) + seq![
            flat_commitment(a1_views(inputs@), alpha@, l as nat),
            flat_commitment(a1_views(outputs@), alpha@, l as nat),
        ];
        assert(a1_views(x@) =~= xv);
        assert(a1_views(ph.acc_g1@) =~= a1_views(prev.0@).subrange(0, 17));
        assert(a1_views(ah.acc_g1@) =~= a1_views(acc.0@).subrange(0, 17));
        assert(fe_views(ph.acc_fr@) =~= fe_views(prev.2@).subrange(0, log_n + 1));
        assert(fe_views(ah.acc_fr@) =~= fe_views(acc.2@).subrange(0, log_n + 1));
        let ep = prev.1@.len() - 3;
        let ea = acc.1@.len() - 3;
        assert(a1_views(ph.acc_errs@[0].0@) =~= a1_views(prev.0@).subrange(28, 31 + ep));
        assert(a1_views(ph.acc_errs@[1].0@) =~= a1_views(prev.0@).subrange(31 + ep, 34 + ep));
        assert(a1_views(ph.acc_errs@[2].0@) =~= a1_views(prev.0@).subrange(34 + ep, 37 + ep));
        assert(a1_views(ah.acc_errs@[0].0@) =~= a1_views(acc.0@).subrange(28, 31 + ea));
        assert(a1_views(ah.acc_errs@[1].0@) =~= a1_views(acc.0@).subrange(31 + ea, 34 + ea));
        assert(a1_views(ah.acc_errs@[2].0@) =~= a1_views(acc.0@).subrange(34 + ea, 37 + ea));
        assert(a1_views(ah.errs@[0].0@) =~= a1_views(acc.0@).subrange(17, 22));
        assert(a1_views(ah.errs@[1].0@) =~= a1_views(acc.0@).subrange(22, 25));
        assert(a1_views(ah.errs@[2].0@) =~= a1_views(acc.0@).subrange(25, 28));
        assert(a2_views(proof.1@)[0] == proof.1@[0]@);
        assert(a2_views(prev.1@)[0] == prev.1@[0]@);
        assert(a2_views(acc.1@)[0] == acc.1@[0]@);
        let pf = fe_views(prev.2@);
        let af = fe_views(acc.2@);
        let n = log_n + 1;
        let ok = chal && c_g1 && c_g2 && c_fr && c_mu && c_e0 && c_e1 && c_e2 && c_r;
        let want = folding_ok(
            xv,
            a2_views(proof.1@)[0],
            fe_views(proof.2@),
            a1_views(prev.0@),
            a2_views(prev.1@),
            pf,
            a1_views(acc.0@),
            a2_views(acc.1@),
            af,
            log_n as int,
            acc_gamma@,
        );
        if c_r {
            assert forall|i: int| 0 <= i < log_n implies fadd(pf[n + log_n + i], fmul(#[trigger] af[n + i], acc_gamma@)) == af[n + log_n + i] by {
                assert(fadd(ph.acc_errs@[3 + i].2@[0]@, fmul(ah.errs@[3 + i].2@[0]@, acc_gamma@)) == ah.acc_errs@[3 + i].2@[0]@);
            }
        } else {
            let i = choose|i: int| 3 <= i < 3 + log_n && !(fadd((#[trigger] ph.acc_errs@[i]).2@[0]@, fmul(ah.errs@[i].2@[0]@, acc_gamma@)) == ah.acc_errs@[i].2@[0]@);
            assert(!(fadd(pf[n + log_n + (i - 3)], fmul(af[n + (i - 3)], acc_gamma@)) == af[n + log_n + (i - 3)]));
        }
        let pa = a1_views(prev.0@);
        let aa = a1_views(acc.0@);
        let ag = acc_gamma@;
        assert(c_g1 == forall|i: int| 0 <= i < 17 && !(9 <= i < 15) ==> folds_to(pa[i], #[trigger] xv[i], ag, aa[i])) by {
            if c_g1 {
                assert forall|i: int| 0 <= i < 17 && !(9 <= i < 15) implies folds_to(pa[i], #[trigger] xv[i], ag, aa[i]) by {
                    assert(a1_views(x@)[i] == xv[i]);
                    assert(a1_views(ph.acc_g1@)[i] == pa[i]);
                    assert(a1_views(ah.acc_g1@)[i] == aa[i]);
                }
            } else {
                let i = choose|i: int| 0 <= i < 17 && !(9 <= i < 15) && !folds_to(a1_views(ph.acc_g1@)[i], #[trigger] a1_views(x@)[i], ag, a1_views(ah.acc_g1@)[i]);
                assert(a1_views(x@)[i] == xv[i]);
                assert(a1_views(ph.acc_g1@)[i] == pa[i]);
                assert(a1_views(ah.acc_g1@)[i] == aa[i]);
            }
        }
        assert(c_fr == forall|i: int| 0 <= i < n ==> fadd(pf[i], fmul(#[trigger] fe_views(proof.2@)[i], ag)) == af[i]) by {
            if c_fr {
                assert forall|i: int| 0 <= i < n implies fadd(pf[i], fmul(#[trigger] fe_views(proof.2@)[i], ag)) == af[i] by {
                    assert(fe_views(ph.acc_fr@)[i] == pf[i]);
                    assert(fe_views(ah.acc_fr@)[i] == af[i]);
                }
            } else {
                let i = choose|i: int| 0 <= i < n && !(fadd(fe_views(ph.acc_fr@)[i], fmul(#[trigger] fe_views(proof.2@)[i], ag)) == fe_views(ah.acc_fr@)[i]);
                assert(fe_views(ph.acc_fr@)[i] == pf[i]);
                assert(fe_views(ah.acc_fr@)[i] == af[i]);
            }
        }
        let ep = prev.1@.len() - 3;
        let ea = acc.1@.len() - 3;
        assert(a1_views(ph.acc_errs@[0].0@).subrange(ep as int, ep + 3) =~= pa.subrange(28 + ep, 31 + ep));
        assert(a1_views(ph.acc_errs@[1].0@).subrange(0, 3) =~= pa.subrange(31 + ep, 34 + ep));
        assert(a1_views(ph.acc_errs@[2].0@).subrange(0, 3) =~= pa.subrange(34 + ep, 37 + ep));
        assert(a1_views(ah.acc_errs@[0].0@).subrange(ea as int, ea + 3) =~= aa.subrange(28 + ea, 31 + ea));
        assert(a1_views(ah.acc_errs@[1].0@).subrange(0, 3) =~= aa.subrange(31 + ea, 34 + ea));
        assert(a1_views(ah.acc_errs@[2].0@).subrange(0, 3) =~= aa.subrange(34 + ea, 37 + ea));
        assert(a1_views(ah.errs@[0].0@).subrange(2, 5) =~= aa.subrange(19, 22));
        assert(a1_views(ah.errs@[1].0@).subrange(0, 3) =~= aa.subrange(22, 25));
        assert(a1_views(ah.errs@[2].0@).subrange(0, 3) =~= aa.subrange(25, 28));
        lemma_last3(a1_views(ph.acc_errs@[0].0@), a1_views(ah.errs@[0].0@), a1_views(ah.acc_errs@[0].0@), pa, aa, aa, 28 + ep, 19, 28 + ea, ag);
        lemma_last3(a1_views(ph.acc_errs@[1].0@), a1_views(ah.errs@[1].0@), a1_views(ah.acc_errs@[1].0@), pa, aa, aa, 31 + ep, 22, 31 + ea, ag);
        lemma_last3(a1_views(ph.acc_errs@[2].0@), a1_views(ah.errs@[2].0@), a1_views(ah.acc_errs@[2].0@), pa, aa, aa, 34 + ep, 25, 34 + ea, ag);
        assert(c_mu == (fadd(pf[pf.len() - 1], ag) == af[af.len() - 1]));
        assert(ok == (chal && want));
    }
    Some(chal && c_g1 && c_g2 && c_fr && c_mu && c_e0 && c_e1 && c_e2 && c_r)
}

} // verus!
