//! The verifier's side of a linear-layer lookup: the pairing checks that a
//! committed vector times the committed matrix gives the committed output,
//! with the sumcheck challenges it rests on.
use super::cqlin::CQLinBasicBlock;
use crate::accumulator::{acc_proof_to_cqlin_acc, cqlin_acc_proof_fits, is_empty_proof};
use super::cqlin_verify::{a1_views, challenges_ok, check_challenges, flat_commitment, flatten_commitments};
use super::data::{DataEnc, SRS};
use crate::curve::{
    g1_add, g1_add_at, g1_affine, g1_affine_at, g1_affine_neg_at, g1_neg_view, g1_proj_view, g1_scale, g1_scale_at,
    g1_sub, g1_sub_at, g2_affine, g2_affine_at, g2_proj_view, g2_sub, g2_sub_at, G1Affine, G2Affine,
};
use crate::field::{fe_inv, fe_mul, fe_sub, fe_views, finv, fmul, fsub, Fe};
use crate::tensor::Tensor;
use vstd::prelude::*;

verus! {

/// The number of doublings from `p` until at least `n`; from one, the
/// exponent of the smallest power of two at least `n`.
pub open spec fn doublings_from(p: nat, n: nat) -> nat
    decreases if n > p { n - p } else { 0 },
{
    if p == 0 || p >= n {
        0
    } else {
        1 + doublings_from(2 * p, n)
    }
}

/// `n.next_power_of_two().trailing_zeros()`: the exponent of the smallest
/// power of two at least `n`.
pub(crate) fn log_next_pow(n: usize) -> (r: usize)
    ensures
        r == doublings_from(1, n as nat),
{
    let mut p: u128 = 1;
    let mut k: usize = 0;
    while p < n as u128
        invariant
            1 <= p,
            2 * k <= p,
            k == 0 || p <= 2 * n,
            doublings_from(1, n as nat) == k + doublings_from(p as nat, n as nat),
        decreases if n > p { n - p } else { 0 },
    {
        p = 2 * p;
        k = k + 1;
    }
    k
}

/// The views of the pairs of a list of pairing checks.
pub open spec fn pair_views(s: Seq<Vec<(G1Affine, G2Affine)>>) -> Seq<
    Seq<((nat, nat, bool), ((nat, nat), (nat, nat), bool))>,
> {
    Seq::new(s.len(), |i: int| Seq::new(s[i]@.len(), |j: int| (s[i]@[j].0@, s[i]@[j].1@)))
}

/// The commitments of the first `l` elements of a tensor, in affine form.
pub open spec fn enc_affines(t: Tensor<DataEnc>, l: nat) -> Seq<(nat, nat, bool)> {
    Seq::new(l, |i: int| t.data@[i].g1@)
}

/// The six checks, from the proof's points `p` (`R, Q, A, S, P, P_R, pi,
/// pi_1, z`, then the blindings `C1 .. C6`), its matrix commitment `mx`, the
/// second-group powers `x2a` and blinding `y2a`, the sizes `m`, `n` and `N`,
/// the flattened input and output commitments, `1/m` and `gamma^n`.
pub open spec fn cqlin_checks(
    p: Seq<(nat, nat, bool)>,
    mx: ((nat, nat), (nat, nat), bool),
    x2a: Seq<((nat, nat), (nat, nat), bool)>,
    y2a: ((nat, nat), (nat, nat), bool),
    m: nat,
    n: nat,
    big_n: nat,
    flat_a: (nat, nat, bool),
    flat_c: (nat, nat, bool),
    inv_m: nat,
    gamma_n: nat,
) -> Seq<Seq<((nat, nat, bool), ((nat, nat), (nat, nat), bool))>> {
    let (rx, qx, ax, sx, px, prx, pi, pi1, z) = (p[0], p[1], p[2], p[3], p[4], p[5], p[6], p[7], p[8]);
    let neg = |q: (nat, nat, bool)| g1_neg_view(q);
    let temp = g1_affine(g1_scale(g1_proj_view(flat_c), inv_m));
    let opening = |f: (nat, nat, bool), w: (nat, nat, bool)|
        g1_affine(g1_add(g1_sub(g1_proj_view(f), g1_proj_view(z)), g1_scale(g1_proj_view(w), gamma_n)));
    seq![
        seq![
            (ax, mx),
            (neg(qx), g2_affine(g2_sub(g2_proj_view(x2a[(m * n) as int]), g2_proj_view(x2a[0])))),
            (neg(rx), x2a[0]),
            (neg(p[9]), y2a),
        ],
        seq![
            (g1_affine(g1_sub(g1_proj_view(rx), g1_proj_view(temp))), x2a[0]),
            (neg(sx), x2a[n as int]),
            (neg(p[10]), y2a),
        ],
        seq![(flat_c, x2a[big_n - n]), (neg(px), x2a[0]), (neg(p[11]), y2a)],
        seq![(rx, x2a[big_n - m * n]), (neg(prx), x2a[0]), (neg(p[12]), y2a)],
        seq![(opening(flat_a, pi), x2a[0]), (neg(pi), x2a[1]), (neg(p[13]), y2a)],
        seq![(opening(ax, pi1), x2a[0]), (neg(pi1), x2a[n as int]), (neg(p[14]), y2a)],
    ]
}

/// The inputs the check accepts: a one-dimensional model of `m` committed
/// columns of length `n`, a one-dimensional input of at least one element
/// and an output at least as long, a proof of 15 and 1 points and more
/// than `log n` challenges, and second-group powers up to `N >= m n`.
pub open spec fn cqlin_check_accepts(
    srs: SRS,
    model: Tensor<DataEnc>,
    inputs: Seq<Tensor<DataEnc>>,
    outputs: Seq<Tensor<DataEnc>>,
    proof: (Seq<G1Affine>, Seq<G2Affine>, Seq<Fe>),
) -> bool {
    let m = model.data@.len();
    let n = model.data@[0].len as nat;
    &&& model.shape@.len() == 1
    &&& m >= 1
    &&& inputs.len() >= 1
    &&& outputs.len() >= 1
    &&& inputs[0].shape@.len() <= 1
    &&& outputs[0].shape@.len() <= 1
    &&& inputs[0].data@.len() >= 1
    &&& outputs[0].data@.len() >= inputs[0].data@.len()
    &&& proof.0.len() == 15
    &&& proof.1.len() == 1
    &&& proof.2.len() >= doublings_from(1, n) + 1
    &&& srs.X2P@.len() >= 1
    &&& m * n <= srs.X2P@.len() - 1
    &&& n <= srs.X2P@.len() - 1
    &&& srs.X2A@.len() >= srs.X2P@.len()
    &&& srs.X2A@.len() >= 2
}

impl CQLinBasicBlock {
    /// The verifier's checks of a linear-layer lookup, with the folding
    /// challenge `alpha` and the sumcheck challenge `gamma` drawn by the
    /// caller: `None` when the proof's challenges are not `gamma` and its
    /// successive squares, else the six pairing checks, whose pairings must
    /// each multiply to one.
    pub fn verify(
        &self,
        srs: &SRS,
        model: &Tensor<DataEnc>,
        inputs: &Vec<Tensor<DataEnc>>,
        outputs: &Vec<Tensor<DataEnc>>,
        proof: (&Vec<G1Affine>, &Vec<G2Affine>, &Vec<Fe>),
        alpha: &Fe,
        gamma: &Fe,
    ) -> (r: Option<Vec<Vec<(G1Affine, G2Affine)>>>)
        requires
            cqlin_check_accepts(*srs, *model, inputs@, outputs@, (proof.0@, proof.1@, proof.2@)),
        ensures
            ({
                let m = model.data@.len();
                let n = model.data@[0].len as nat;
                let log_n = doublings_from(1, n);
                let l = inputs@[0].data@.len();
                let f = fe_views(proof.2@);
                match r {
                    None => !challenges_ok(f, gamma@, log_n as int),
                    Some(c) => challenges_ok(f, gamma@, log_n as int) && pair_views(c@) == cqlin_checks(
                        a1_views(proof.0@),
                        proof.1@[0]@,
                        srs.X2A@.map_values(|q: G2Affine| q@),
                        srs.Y2A@,
                        m,
                        n,
                        (srs.X2P@.len() - 1) as nat,
                        flat_commitment(enc_affines(inputs@[0], l), alpha@, l),
                        flat_commitment(enc_affines(outputs@[0], l), alpha@, l),
                        finv(m),
                        f[log_n as int],
                    ),
                }
            }),
    {
        let m = model.data.len();
        let n = model.data[0].len;
        let big_n = srs.X2P.len() - 1;
        let log_n = log_next_pow(n);
        let p = proof.0;
        let l = inputs[0].data.len();
        let a_pts = firsts(&inputs[0], l);
        let c_pts = firsts(&outputs[0], l);
        let flat_a = flatten_commitments(&a_pts, alpha, l);
        let flat_c = flatten_commitments(&c_pts, alpha, l);
        let gamma_n = proof.2[log_n];
        if !check_challenges(proof.2, gamma, log_n) {
            return None;
        }
        let mn = m * n;
        let inv_m = fe_inv(&Fe::from_u64(m as u64));
        let temp = g1_affine_at(&g1_scale_at(&flat_c.to_projective(), &inv_m));
        let x2a0 = srs.X2A[0];
        let y2a = srs.Y2A;
        let neg = |q: &G1Affine| -> (r: G1Affine)
            ensures
                r@ == g1_neg_view(q@),
            { g1_affine_neg_at(q) };
        let mut checks: Vec<Vec<(G1Affine, G2Affine)>> = Vec::new();
        let mut c: Vec<(G1Affine, G2Affine)> = Vec::new();
        c.push((p[2], proof.1[0]));
        c.push((neg(&p[1]), g2_affine_at(&g2_sub_at(&srs.X2A[mn].to_projective(), &x2a0.to_projective()))));
        c.push((neg(&p[0]), x2a0));
        c.push((neg(&p[9]), y2a));
        checks.push(c);
        let mut c: Vec<(G1Affine, G2Affine)> = Vec::new();
        c.push((g1_affine_at(&g1_sub_at(&p[0].to_projective(), &temp.to_projective())), x2a0));
        c.push((neg(&p[3]), srs.X2A[n]));
        c.push((neg(&p[10]), y2a));
        checks.push(c);
        let mut c: Vec<(G1Affine, G2Affine)> = Vec::new();
        c.push((flat_c, srs.X2A[big_n - n]));
        c.push((neg(&p[4]), x2a0));
        c.push((neg(&p[11]), y2a));
        checks.push(c);
        let mut c: Vec<(G1Affine, G2Affine)> = Vec::new();
        c.push((p[0], srs.X2A[big_n - mn]));
        c.push((neg(&p[5]), x2a0));
        c.push((neg(&p[12]), y2a));
        checks.push(c);
        let zp = p[8].to_projective();
        let o1 = g1_add_at(&g1_sub_at(&flat_a.to_projective(), &zp), &g1_scale_at(&p[6].to_projective(), &gamma_n));
        let mut c: Vec<(G1Affine, G2Affine)> = Vec::new();
        c.push((g1_affine_at(&o1), x2a0));
        c.push((neg(&p[6]), srs.X2A[1]));
        c.push((neg(&p[13]), y2a));
        checks.push(c);
        let o2 = g1_add_at(&g1_sub_at(&p[2].to_projective(), &zp), &g1_scale_at(&p[7].to_projective(), &gamma_n));
        let mut c: Vec<(G1Affine, G2Affine)> = Vec::new();
        c.push((g1_affine_at(&o2), x2a0));
        c.push((neg(&p[7]), srs.X2A[n]));
        c.push((neg(&p[14]), y2a));
        checks.push(c);
        proof {
            let want = cqlin_checks(
                a1_views(p@),
                proof.1@[0]@,
                srs.X2A@.map_values(|q: G2Affine| q@),
                srs.Y2A@,
                m as nat,
                n as nat,
                big_n as nat,
                flat_a@,
                flat_c@,
                finv(m as nat),
                gamma_n@,
            );
            assert(pair_views(checks@) =~~= want);
        }
        Some(checks)
    }
}

/// The commitments of the first `l` elements of a tensor.
pub(crate) fn firsts(t: &Tensor<DataEnc>, l: usize) -> (r: Vec<G1Affine>)
    requires
        l <= t.data@.len(),
    ensures
        r@.len() == l,
        a1_views(r@) == enc_affines(*t, l as nat),
{
    let mut r: Vec<G1Affine> = Vec::new();
    let mut i: usize = 0;
    while i < l
        invariant
            l <= t.data@.len(),
            i <= l,
            r@.len() == i,
            forall|k: int| 0 <= k < i ==> (#[trigger] r@[k]) == t.data@[k].g1,
        decreases l - i,
    {
        r.push(t.data[i].g1);
        i = i + 1;
    }
    assert(a1_views(r@) =~= enc_affines(*t, l as nat));
    r
}

/// The round checks of an accumulated linear-layer lookup proof with values
/// `f`: `beta_i^2 - beta_(i+1) mu - e_i = 0` for each of the `log_n` rounds,
/// the `beta`s first and the rounds' accumulated errors after `log_n + 1`
/// values and `log_n` others.
pub open spec fn decide_rounds_ok(f: Seq<nat>, log_n: int) -> bool {
    let mu = f[f.len() - 1];
    forall|i: int|
        0 <= i < log_n ==> fsub(fsub(fmul(#[trigger] f[i], f[i]), fmul(f[i + 1], mu)), f[2 * log_n + 1 + i]) == 0
}

/// `-q * k` in affine form.
pub open spec fn neg_scaled(q: (nat, nat, bool), k: nat) -> (nat, nat, bool) {
    g1_affine(g1_scale(g1_proj_view(g1_neg_view(q)), k))
}

/// `(a - z) mu + w beta` in affine form.
pub open spec fn folded_opening(a: (nat, nat, bool), z: (nat, nat, bool), w: (nat, nat, bool), mu: nat, beta: nat) -> (
    nat,
    nat,
    bool,
) {
    g1_affine(g1_add(g1_scale(g1_sub(g1_proj_view(a), g1_proj_view(z)), mu), g1_scale(g1_proj_view(w), beta)))
}

/// The decider's six checks of an accumulated linear-layer lookup proof:
/// the points `g` (`R, Q, A, S, P, P_R, pi, pi_1, z, C1 .. C6, flat A, flat
/// C`), the matrix commitment `mx`, the accumulated error terms' points
/// `e1` (with second-group points `e1q`), `e5` and `e6`, the factor `mu`,
/// `beta^n`, and the sizes `m`, `n` and `N`.
pub open spec fn cqlin_decide_checks(
    g: Seq<(nat, nat, bool)>,
    mx: ((nat, nat), (nat, nat), bool),
    e1: Seq<(nat, nat, bool)>,
    e1q: Seq<((nat, nat), (nat, nat), bool)>,
    e5: Seq<(nat, nat, bool)>,
    e6: Seq<(nat, nat, bool)>,
    x2a: Seq<((nat, nat), (nat, nat), bool)>,
    y2a: ((nat, nat), (nat, nat), bool),
    mu: nat,
    beta_k: nat,
    m: nat,
    n: nat,
    big_n: nat,
) -> Seq<Seq<((nat, nat, bool), ((nat, nat), (nat, nat), bool))>> {
    let neg = |q: (nat, nat, bool)| g1_neg_view(q);
    let vanish = g2_affine(g2_sub(g2_proj_view(x2a[(m * n) as int]), g2_proj_view(x2a[0])));
    let k = e1q.len();
    let err1 = Seq::new(k, |i: int| (neg(e1[i]), e1q[i])) + seq![(e1[k as int], vanish), (e1[k + 1int], x2a[0]), (e1[k + 2int], y2a)];
    let g_m = g1_affine(g1_scale(g1_proj_view(g[16]), finv(m)));
    seq![
        seq![(g[2], mx), (neg_scaled(g[1], mu), vanish), (neg_scaled(g[0], mu), x2a[0]), (neg(g[9]), y2a)] + err1,
        seq![(g1_affine(g1_sub(g1_proj_view(g[0]), g1_proj_view(g_m))), x2a[0]), (neg(g[3]), x2a[n as int]), (neg(g[10]), y2a)],
        seq![(g[16], x2a[big_n - n]), (neg(g[4]), x2a[0]), (neg(g[11]), y2a)],
        seq![(g[0], x2a[big_n - m * n]), (neg(g[5]), x2a[0]), (neg(g[12]), y2a)],
        seq![
            (folded_opening(g[15], g[8], g[6], mu, beta_k), x2a[0]),
            (neg_scaled(g[6], mu), x2a[1]),
            (neg_scaled(g[13], mu), y2a),
            (neg(e5[0]), x2a[0]),
            (e5[1], x2a[1]),
            (e5[2], y2a),
        ],
        seq![
            (folded_opening(g[2], g[8], g[7], mu, beta_k), x2a[0]),
            (neg_scaled(g[7], mu), x2a[n as int]),
            (neg_scaled(g[14], mu), y2a),
            (neg(e6[0]), x2a[0]),
            (e6[1], x2a[n as int]),
            (e6[2], y2a),
        ],
    ]
}

/// `-q * k` in affine form.
fn neg_scaled_at(q: &G1Affine, k: &Fe) -> (r: G1Affine)
    ensures
        r@ == neg_scaled(q@, k@),
{
    g1_affine_at(&g1_scale_at(&g1_affine_neg_at(q).to_projective(), k))
}

/// `(a - z) mu + w beta` in affine form.
fn folded_opening_at(a: &G1Affine, z: &G1Affine, w: &G1Affine, mu: &Fe, beta: &Fe) -> (r: G1Affine)
    ensures
        r@ == folded_opening(a@, z@, w@, mu@, beta@),
{
    let d = g1_sub_at(&a.to_projective(), &z.to_projective());
    g1_affine_at(&g1_add_at(&g1_scale_at(&d, mu), &g1_scale_at(&w.to_projective(), beta)))
}

/// Whether the round checks hold.
fn check_decide_rounds(f: &Vec<Fe>, log_n: usize) -> (r: bool)
    requires
        f@.len() >= 3 * log_n + 1,
    ensures
        r == decide_rounds_ok(fe_views(f@), log_n as int),
{
    let ghost fv = fe_views(f@);
    let fl = f.len();
    let mu = f[fl - 1];
    let mut i: usize = 0;
    while i < log_n
        invariant
            fl == f@.len(),
            fl >= 3 * log_n + 1,
            fv == fe_views(f@),
            mu@ == fv[fv.len() - 1],
            i <= log_n,
            forall|k: int|
                0 <= k < i ==> fsub(fsub(fmul(#[trigger] fv[k], fv[k]), fmul(fv[k + 1], fv[fv.len() - 1])), fv[2 * log_n + 1 + k]) == 0,
        decreases log_n - i,
    {
        let a = f[i];
        let b = f[i + 1];
        let e = f[2 * log_n + 1 + i];
        assert(fv[i as int] == a@ && fv[i + 1] == b@ && fv[2 * log_n + 1 + i] == e@);
        let v = fe_sub(&fe_sub(&fe_mul(&a, &a), &fe_mul(&b, &mu)), &e);
        if !v.eq(&Fe::zero()) {
            assert(fsub(fsub(fmul(fv[i as int], fv[i as int]), fmul(fv[i + 1], fv[fv.len() - 1])), fv[2 * log_n + 1 + i]) != 0);
            return false;
        }
        i = i + 1;
    }
    true
}

impl CQLinBasicBlock {
    /// The decider's checks of an accumulated linear-layer lookup proof (as
    /// the verifier holds it): `None` when a sumcheck round of the
    /// accumulator does not hold, else the six pairing checks with the
    /// accumulated error terms, whose pairings must each multiply to one.
    /// `m` and `n` are the setup's dimensions and `N` is one less than the
    /// number of projective second-group powers.
    pub fn acc_decide(&self, srs: &SRS, acc_proof: (&Vec<G1Affine>, &Vec<G2Affine>, &Vec<Fe>)) -> (r: Option<
        Vec<Vec<(G1Affine, G2Affine)>>,
    >)
        requires
            self.setup.shape@.len() >= 2,
            ({
                let (m, n) = (self.setup.shape@[0] as nat, self.setup.shape@[1] as nat);
                let log_n = doublings_from(1, n);
                &&& cqlin_acc_proof_fits(acc_proof.0@, acc_proof.1@, acc_proof.2@, log_n as int, false)
                &&& !is_empty_proof(acc_proof.0@, acc_proof.1@, acc_proof.2@)
                &&& srs.X2P@.len() >= 1
                &&& m * n <= srs.X2P@.len() - 1
                &&& n <= srs.X2P@.len() - 1
                &&& srs.X2A@.len() >= srs.X2P@.len()
                &&& srs.X2A@.len() >= 2
                &&& m >= 1
            }),
        ensures
            ({
                let (m, n) = (self.setup.shape@[0] as nat, self.setup.shape@[1] as nat);
                let log_n = doublings_from(1, n);
                let (p, q, f) = (a1_views(acc_proof.0@), acc_proof.1@, fe_views(acc_proof.2@));
                let e = q.len() - 3;
                let qv = q.map_values(|x: G2Affine| x@);
                match r {
                    None => !decide_rounds_ok(f, log_n as int),
                    Some(c) => decide_rounds_ok(f, log_n as int) && pair_views(c@) == cqlin_decide_checks(
                        p.subrange(0, 17),
                        qv[0],
                        p.subrange(28, 31 + e),
                        qv.subrange(3, 3 + e),
                        p.subrange(31 + e, 34 + e),
                        p.subrange(34 + e, 37 + e),
                        srs.X2A@.map_values(|x: G2Affine| x@),
                        srs.Y2A@,
                        f[f.len() - 1],
                        f[log_n as int],
                        m,
                        n,
                        (srs.X2P@.len() - 1) as nat,
                    ),
                }
            }),
    {
        let m = self.setup.shape[0];
        let n = self.setup.shape[1];
        let big_n = srs.X2P.len() - 1;
        let log_n = log_next_pow(n);
        let holder = acc_proof_to_cqlin_acc(acc_proof, log_n, false);
        if !check_decide_rounds(acc_proof.2, log_n) {
            return None;
        }
        let g = &holder.acc_g1;
        let mx = holder.acc_g2[0];
        let mu = holder.mu;
        let beta_k = holder.acc_fr[log_n];
        let e1 = &holder.acc_errs[0];
        let e5 = &holder.acc_errs[1].0;
        let e6 = &holder.acc_errs[2].0;
        let mn = m * n;
        let x2a0 = srs.X2A[0];
        let y2a = srs.Y2A;
        let vanish = g2_affine_at(&g2_sub_at(&srs.X2A[mn].to_projective(), &x2a0.to_projective()));
        let k = e1.1.len();
        let e1len = e1.0.len();
        let mut c1: Vec<(G1Affine, G2Affine)> = Vec::new();
        c1.push((g[2], mx));
        c1.push((neg_scaled_at(&g[1], &mu), vanish));
        c1.push((neg_scaled_at(&g[0], &mu), x2a0));
        c1.push((g1_affine_neg_at(&g[9]), y2a));
        let ghost head = c1@;
        let mut i: usize = 0;
        while i < k
            invariant
                k == e1.1@.len(),
                e1.0@.len() == k + 3,
                i <= k,
                c1@.len() == 4 + i,
                forall|j: int| 0 <= j < i ==> (#[trigger] c1@[4 + j]).0@ == g1_neg_view(e1.0@[j]@) && c1@[4 + j].1 == e1.1@[j],
                c1@.subrange(0, 4) == head,
            decreases k - i,
        {
            c1.push((g1_affine_neg_at(&e1.0[i]), e1.1[i]));
            i = i + 1;
            proof {
                assert(c1@.subrange(0, 4) =~= head);
            }
        }
        c1.push((e1.0[k], vanish));
        c1.push((e1.0[k + 1], x2a0));
        c1.push((e1.0[k + 2], y2a));
        proof {
            assert(c1@.subrange(0, 4) =~= head);
            assert forall|j: int| 0 <= j < k implies (#[trigger] c1@[4 + j]).0@ == g1_neg_view(e1.0@[j]@) && c1@[4 + j].1
                == e1.1@[j] by {}
        }
        let g_m = g1_affine_at(&g1_scale_at(&g[16].to_projective(), &fe_inv(&Fe::from_u64(m as u64))));
        let mut c2: Vec<(G1Affine, G2Affine)> = Vec::new();
        c2.push((g1_affine_at(&g1_sub_at(&g[0].to_projective(), &g_m.to_projective())), x2a0));
        c2.push((g1_affine_neg_at(&g[3]), srs.X2A[n]));
        c2.push((g1_affine_neg_at(&g[10]), y2a));
        let mut c3: Vec<(G1Affine, G2Affine)> = Vec::new();
        c3.push((g[16], srs.X2A[big_n - n]));
        c3.push((g1_affine_neg_at(&g[4]), x2a0));
        c3.push((g1_affine_neg_at(&g[11]), y2a));
        let mut c4: Vec<(G1Affine, G2Affine)> = Vec::new();
        c4.push((g[0], srs.X2A[big_n - mn]));
        c4.push((g1_affine_neg_at(&g[5]), x2a0));
        c4.push((g1_affine_neg_at(&g[12]), y2a));
        let mut c5: Vec<(G1Affine, G2Affine)> = Vec::new();
        c5.push((folded_opening_at(&g[15], &g[8], &g[6], &mu, &beta_k), x2a0));
        c5.push((neg_scaled_at(&g[6], &mu), srs.X2A[1]));
        c5.push((neg_scaled_at(&g[13], &mu), y2a));
        c5.push((g1_affine_neg_at(&e5[0]), x2a0));
        c5.push((e5[1], srs.X2A[1]));
        c5.push((e5[2], y2a));
        let mut c6: Vec<(G1Affine, G2Affine)> = Vec::new();
        c6.push((folded_opening_at(&g[2], &g[8], &g[7], &mu, &beta_k), x2a0));
        c6.push((neg_scaled_at(&g[7], &mu), srs.X2A[n]));
        c6.push((neg_scaled_at(&g[14], &mu), y2a));
        c6.push((g1_affine_neg_at(&e6[0]), x2a0));
        c6.push((e6[1], srs.X2A[n]));
        c6.push((e6[2], y2a));
        let mut checks: Vec<Vec<(G1Affine, G2Affine)>> = Vec::new();
        checks.push(c1);
        checks.push(c2);
        checks.push(c3);
        checks.push(c4);
        checks.push(c5);
        checks.push(c6);
        proof {
            let (p, q, f) = (a1_views(acc_proof.0@), acc_proof.1@, fe_views(acc_proof.2@));
            let e = q.len() - 3;
            let qv = q.map_values(|x: G2Affine| x@);
            assert(a1_views(g@) =~= p.subrange(0, 17));
            assert(a1_views(e1.0@) =~= p.subrange(28, 31 + e));
            assert(e1.1@.map_values(|x: G2Affine| x@) =~= qv.subrange(3, 3 + e));
            assert(a1_views(e5@) =~= p.subrange(31 + e, 34 + e));
            assert(a1_views(e6@) =~= p.subrange(34 + e, 37 + e));
            let want = cqlin_decide_checks(
                p.subrange(0, 17),
                qv[0],
                p.subrange(28, 31 + e),
                qv.subrange(3, 3 + e),
                p.subrange(31 + e, 34 + e),
                p.subrange(34 + e, 37 + e),
                srs.X2A@.map_values(|x: G2Affine| x@),
                srs.Y2A@,
                f[f.len() - 1],
                f[log_n as int],
                m as nat,
                n as nat,
                big_n as nat,
            );
            assert forall|j: int| 0 <= j < want[0].len() implies pair_views(checks@)[0][j] == want[0][j] by {
                if j < 4 {
                    assert(c1@[j] == head[j]);
                } else if j < 4 + k {
                    assert(c1@[4 + (j - 4)].0@ == g1_neg_view(e1.0@[j - 4]@));
                } else {
                }
            }
            assert(pair_views(checks@)[0] =~= want[0]);
            assert(pair_views(checks@) =~~= want);
        }
        Some(checks)
    }
}

} // verus!
