//! The prover of a linear-layer lookup: the commitments to the flattened
//! input and output vectors against the setup, the opening at the last of
//! the challenge's repeated squares, and the blinding corrections.
use super::alternating::calc_pow;
use super::concat_check::{affine_views, fe_dot, pows_from1, projs, sub_vec, to_projs};
use super::cqlin::CQLinBasicBlock;
use super::cqlin_check::{doublings_from, log_next_pow};
use super::data::{blinded, trim, Data, SRS};
use super::prover::{column, msm_zip, msm_zip_exec, square_chain, squares, weighted_raw, weighted_sum};
use crate::curve::{
    g1_add, g1_add_at, g1_affine, g1_affine_at, g1_proj_view, g1_scale, g1_scale_at, g1_sub, g1_sub_at, g1_sum_upto,
    g1_views, g1_zero_view, g2_add, g2_add_at, g2_proj_view, g2_scale, g2_scale_at, G1Affine, G2Affine, G1, G2,
};
use crate::field::{
    domain_element, domain_element_at, fe_inv, fe_mul, fe_sub, fe_views, finv, fmul, fsub, interpolate, Fe,
};
use crate::poly::{evaluate, poly_eval};
use crate::tensor::next_pow_spec;
use vstd::prelude::*;

verus! {

/// The prover's blinding scalars: nine for its own commitments, those of the
/// inputs' and outputs' commitments, and the blinds of the flattened input
/// and output polynomials.
#[derive(Debug)]
pub struct CQLinBlinds {
    pub r: Vec<Fe>,
    pub input_rs: Vec<Fe>,
    pub output_rs: Vec<Fe>,
    pub flat_a: (Fe, Fe),
    pub flat_c: (Fe, Fe),
}

/// The vectors weighted by `alpha, alpha^2, ...` and added: element `j`
/// for `j < k`.
pub open spec fn flat_values(d: Seq<Data>, alpha: nat, l: nat, k: nat) -> Seq<nat> {
    Seq::new(k, |j: int| fe_dot(column(d, j, l), pows_from1(alpha, l), l))
}

/// The coefficients `Data::new` gives for `raw` with the blind `b`.
pub open spec fn data_poly(raw: Seq<nat>, b: (nat, nat)) -> Seq<nat> {
    trim(blinded(interpolate(raw), next_pow_spec(raw.len()), b.0, b.1))
}

/// `p + y * r` for an affine `p`.
pub open spec fn hidden(p: (nat, nat, bool), y: (nat, nat, nat), r: nat) -> (nat, nat, nat) {
    g1_add(g1_proj_view(p), g1_scale(y, r))
}

/// The `k`-th block of `m` points of the setup, in projective form.
pub open spec fn setup_block(setup: Seq<(nat, nat, bool)>, k: int, m: nat) -> Seq<(nat, nat, nat)> {
    projs(setup.subrange(k * m, (k + 1) * m))
}

/// The fifteen first-group points of the proof, from the setup's points,
/// the first powers in affine and projective form, the blinding generator,
/// the flattened input's values and coefficients, the flattened output's
/// coefficients, the two flattened blinding scalars, the prover's nine
/// blinds, `gamma^(2^log n)`, and the sizes `m`, `n` and `N`.
pub open spec fn cqlin_proof_points(
    setup: Seq<(nat, nat, bool)>,
    x1a: Seq<(nat, nat, bool)>,
    x1p: Seq<(nat, nat, nat)>,
    y1p: (nat, nat, nat),
    fa: Seq<nat>,
    fa_poly: Seq<nat>,
    fc_poly: Seq<nat>,
    fa_r: nat,
    fc_r: nat,
    r: Seq<nat>,
    gn: nat,
    m: nat,
    n: nat,
    big_n: nat,
) -> Seq<(nat, nat, nat)> {
    let raw_msm = |k: int| g1_affine(msm_zip(setup_block(setup, k, m), fa));
    let a_x = g1_affine(msm_zip(Seq::new(m, |i: int| g1_proj_view(x1a[n * i])), fa_poly));
    let p_x = g1_affine(msm_zip(projs(x1a.subrange(big_n - n, big_n as int)), fc_poly));
    let z = poly_eval(fa_poly, gn);
    let h = Seq::new(m, |i: int| fmul(fsub(fa[i], z), finv(fsub(domain_element(m, i as nat), gn))));
    let pi = g1_affine(msm_zip(setup_block(setup, 5, m), h));
    let pi1 = g1_affine(msm_zip(setup_block(setup, 4, m), h));
    let x0 = x1p[0];
    let m1 = g1_sum_upto(setup_block(setup, 0, m), m);
    let part_c1 = g1_sub(g1_scale(g1_sub(x0, x1p[(m * n) as int]), r[1]), g1_scale(x0, r[0]));
    let open = |w: (nat, nat, nat), k: int| g1_scale(g1_sub(g1_scale(x0, gn), w), r[k]);
    seq![
        hidden(raw_msm(0), y1p, r[0]),
        hidden(raw_msm(1), y1p, r[1]),
        hidden(a_x, y1p, r[2]),
        hidden(raw_msm(2), y1p, r[3]),
        hidden(p_x, y1p, r[4]),
        hidden(raw_msm(3), y1p, r[5]),
        hidden(pi, y1p, r[6]),
        hidden(pi1, y1p, r[7]),
        g1_scale(x0, z),
        g1_add(
            g1_add(g1_add(g1_scale(m1, r[2]), part_c1), g1_scale(g1_scale(y1p, r[2]), r[8])),
            g1_scale(g1_proj_view(a_x), r[8]),
        ),
        g1_sub(g1_scale(x0, fsub(r[0], fmul(fc_r, finv((m as u32) as nat)))), g1_scale(x1p[n as int], r[3])),
        g1_sub(g1_scale(x1p[big_n - n], fc_r), g1_scale(x0, r[4])),
        g1_sub(g1_scale(x1p[big_n - m * n], r[0]), g1_scale(x0, r[5])),
        g1_add(g1_scale(x0, fa_r), open(x1p[1], 6)),
        g1_add(g1_scale(x0, r[2]), open(x1p[n as int], 7)),
    ]
}

/// What the prover accepts: `m >= 1` model columns of `1 <= n` values, at
/// least one input vector with at least `m` values and as many output
/// vectors with at least `n`, blinds for all of them, a setup of `6 m`
/// first-group points and a second-group one, powers reaching `N >= m n`,
/// domains that exist, and a challenge whose repeated square is not a
/// point of the domain of size `m`.
pub open spec fn cqlin_prove_accepts(
    srs: SRS,
    setup: (Seq<G1Affine>, Seq<G2Affine>),
    model: Seq<Data>,
    inputs: Seq<Data>,
    outputs: Seq<Data>,
    gamma: nat,
    blinds: CQLinBlinds,
) -> bool {
    let m = model.len();
    let n = model[0].raw@.len();
    let l = inputs.len();
    let big_n = (srs.X2P@.len() - 1) as nat;
    let log_n = doublings_from(1, n);
    &&& 1 <= m <= 268435456
    &&& 1 <= n <= 268435456
    &&& l >= 1
    &&& outputs.len() >= l
    &&& forall|i: int| 0 <= i < l ==> (#[trigger] inputs[i]).raw@.len() >= m
    &&& forall|i: int| 0 <= i < l ==> (#[trigger] outputs[i]).raw@.len() >= n
    &&& blinds.r@.len() == 9
    &&& blinds.input_rs@.len() >= l
    &&& blinds.output_rs@.len() >= l
    &&& setup.0.len() >= 6 * m
    &&& setup.1.len() >= 1
    &&& srs.X2P@.len() >= 1
    &&& m * n <= big_n
    &&& srs.X1P@.len() > big_n
    &&& srs.X1P@.len() >= 2
    &&& srs.X1A@.len() >= big_n
    &&& srs.X1A@.len() > n * (m - 1)
    &&& srs.X1A@.len() >= next_pow_spec(m) + 2
    &&& srs.X1A@.len() >= next_pow_spec(n) + 2
    &&& m as u32 != 0
    &&& forall|i: int| 0 <= i < m ==> #[trigger] off_domain(m, i, squares(gamma, log_n))
}

/// `x` differs from element `i` of the domain of size `m`.
pub open spec fn off_domain(m: nat, i: int, x: nat) -> bool {
    fsub(domain_element(m, i as nat), x) != 0
}

/// The projective forms of the `k`-th block of `m` setup points.
fn block_points(setup: &Vec<G1Affine>, k: usize, m: usize) -> (r: Vec<G1>)
    requires
        k < 6,
        (k + 1) * m <= setup@.len(),
    ensures
        r@.len() == m,
        g1_views(r@) == setup_block(affine_views(setup@), k as int, m as nat),
{
    let sl = setup.len();
    proof {
        assert(k * m + m == (k + 1) * m) by (nonlinear_arith);
    }
    let s = sub_vec(setup, k * m, (k + 1) * m);
    let r = to_projs(&s);
    proof {
        assert(affine_views(s@) =~= affine_views(setup@).subrange(k * m, (k + 1) * m));
    }
    r
}

impl CQLinBasicBlock {
    /// Proves a linear-layer lookup for the model's committed columns, with
    /// the flattening challenge `alpha` and the sumcheck challenge `gamma`
    /// drawn by the caller, and the blinds `blinds`: fifteen first-group
    /// points (`R, Q, A, S, P, P_R, pi, pi_1` each hidden by a blind, the
    /// opening value `z`, and the six corrections), the blinded matrix
    /// commitment, and the challenge with its `log n` repeated squares.
    pub fn prove(
        &self,
        srs: &SRS,
        setup: (&Vec<G1Affine>, &Vec<G2Affine>),
        model: &Vec<Data>,
        inputs: &Vec<Data>,
        outputs: &Vec<Data>,
        alpha: &Fe,
        gamma: &Fe,
        blinds: &CQLinBlinds,
    ) -> (r: (Vec<G1>, Vec<G2>, Vec<Fe>))
        requires
            cqlin_prove_accepts(*srs, (setup.0@, setup.1@), model@, inputs@, outputs@, gamma@, *blinds),
        ensures
            ({
                let m = model@.len();
                let n = model@[0].raw@.len();
                let l = inputs@.len();
                let log_n = doublings_from(1, n);
                let fa = flat_values(inputs@, alpha@, l, m);
                let fc = flat_values(outputs@, alpha@, l, n);
                let w = pows_from1(alpha@, l);
                &&& r.2@.len() == log_n + 1
                &&& forall|i: int| 0 <= i <= log_n ==> (#[trigger] r.2@[i])@ == squares(gamma@, i as nat)
                &&& r.1@.len() == 1
                &&& r.1@[0]@ == g2_add(g2_proj_view(setup.1@[0]@), g2_scale(srs.Y2P@, blinds.r@[8]@))
                &&& g1_views(r.0@) == cqlin_proof_points(
                    affine_views(setup.0@),
                    affine_views(srs.X1A@),
                    g1_views(srs.X1P@),
                    srs.Y1P@,
                    fa,
                    data_poly(fa, (blinds.flat_a.0@, blinds.flat_a.1@)),
                    data_poly(fc, (blinds.flat_c.0@, blinds.flat_c.1@)),
                    fe_dot(fe_views(blinds.input_rs@), w, l),
                    fe_dot(fe_views(blinds.output_rs@), w, l),
                    fe_views(blinds.r@),
                    squares(gamma@, log_n),
                    m,
                    n,
                    (srs.X2P@.len() - 1) as nat,
                )
            }),
    {
        let l = inputs.len();
        let m = model.len();
        let n = model[0].raw.len();
        let big_n = srs.X2P.len() - 1;
        let pw = calc_pow(*alpha, l);
        let ghost w = pows_from1(alpha@, l as nat);
        proof {
            assert(fe_views(pw@) =~= w);
        }
        let fa_raw = weighted_raw(inputs, &pw, m);
        let fc_raw = weighted_raw(outputs, &pw, n);
        let in_rs = sub_vec(&blinds.input_rs, 0, l);
        let out_rs = sub_vec(&blinds.output_rs, 0, l);
        let fa_r = weighted_sum(&in_rs, &pw);
        let fc_r = weighted_sum(&out_rs, &pw);
        proof {
            assert(fe_views(fa_raw@) =~= flat_values(inputs@, alpha@, l as nat, m as nat));
            assert(fe_views(fc_raw@) =~= flat_values(outputs@, alpha@, l as nat, n as nat));
            assert forall|k: nat| k <= l implies fe_dot(fe_views(in_rs@), w, k) == fe_dot(fe_views(blinds.input_rs@), w, k)
                && fe_dot(fe_views(out_rs@), w, k) == fe_dot(fe_views(blinds.output_rs@), w, k) by {
                lemma_dot_prefix(fe_views(in_rs@), fe_views(blinds.input_rs@), w, k);
                lemma_dot_prefix(fe_views(out_rs@), fe_views(blinds.output_rs@), w, k);
            }
        }
        let bases = to_projs(&srs.X1A);
        let fa = Data::new(&bases, &fa_raw, blinds.flat_a);
        let fc = Data::new(&bases, &fc_raw, blinds.flat_c);
        let seg0 = block_points(setup.0, 0, m);
        let seg1 = block_points(setup.0, 1, m);
        let seg2 = block_points(setup.0, 2, m);
        let seg3 = block_points(setup.0, 3, m);
        let seg4 = block_points(setup.0, 4, m);
        let seg5 = block_points(setup.0, 5, m);
        let r_x = g1_affine_at(&msm_zip_exec(&seg0, &fa.raw));
        let q_x = g1_affine_at(&msm_zip_exec(&seg1, &fa.raw));
        let s_x = g1_affine_at(&msm_zip_exec(&seg2, &fa.raw));
        let p_r_x = g1_affine_at(&msm_zip_exec(&seg3, &fa.raw));
        let mut a_bases: Vec<G1> = Vec::new();
        let xl = srs.X1A.len();
        let mut i: usize = 0;
        while i < m
            invariant
                xl == srs.X1A@.len(),
                i <= m,
                srs.X1A@.len() > n * (m - 1),
                a_bases@.len() == i,
                forall|k: int| 0 <= k < i ==> (#[trigger] a_bases@[k])@ == g1_proj_view(srs.X1A@[n * k]@),
            decreases m - i,
        {
            proof {
                assert(n * i <= n * (m - 1)) by (nonlinear_arith)
                    requires
                        i <= m - 1,
                ;
            }
            a_bases.push(srs.X1A[n * i].to_projective());
            i = i + 1;
        }
        let a_x = g1_affine_at(&msm_zip_exec(&a_bases, &fa.poly));
        proof {
            assert(n <= m * n) by (nonlinear_arith)
                requires
                    m >= 1,
            ;
        }
        let p_bases = to_projs(&sub_vec(&srs.X1A, big_n - n, big_n));
        let p_x = g1_affine_at(&msm_zip_exec(&p_bases, &fc.poly));
        let log_n = log_next_pow(n);
        proof {
            assert(log_n <= n) by {
                lemma_doublings_small(1, n as nat);
            }
        }
        let gammas = square_chain(gamma, log_n);
        let gn = gammas[log_n];
        let z = evaluate(&fa.poly, &gn);
        let mut h: Vec<Fe> = Vec::new();
        let mut i: usize = 0;
        while i < m
            invariant
                i <= m,
                m <= 268435456,
                fa.raw@.len() == m,
                gn@ == squares(gamma@, log_n as nat),
                forall|k: int| 0 <= k < m ==> #[trigger] off_domain(m as nat, k, squares(gamma@, log_n as nat)),
                h@.len() == i,
                forall|k: int|
                    0 <= k < i ==> (#[trigger] h@[k])@ == fmul(fsub(fa.raw@[k]@, z@), finv(fsub(domain_element(m as nat, k as nat), gn@))),
            decreases m - i,
        {
            let e = domain_element_at(m, i);
            let d = fe_sub(&e, &gn);
            assert(off_domain(m as nat, i as int, squares(gamma@, log_n as nat)));
            let v = fe_mul(&fe_sub(&fa.raw[i], &z), &fe_inv(&d));
            h.push(v);
            i = i + 1;
        }
        let pi = g1_affine_at(&msm_zip_exec(&seg5, &h));
        let pi1 = g1_affine_at(&msm_zip_exec(&seg4, &h));
        let y = srs.Y1P;
        let rr = &blinds.r;
        let blind_point = |p: &G1Affine, k: usize| -> (o: G1)
            requires
                k < rr@.len(),
            ensures
                o@ == hidden(p@, y@, rr@[k as int]@),
            { g1_add_at(&p.to_projective(), &g1_scale_at(&y, &rr[k])) };
        let x0 = srs.X1P[0];
        let mut m1 = G1::zero();
        let mut i: usize = 0;
        while i < m
            invariant
                i <= m,
                seg0@.len() == m,
                m1@ == g1_sum_upto(g1_views(seg0@), i as nat),
            decreases m - i,
        {
            m1 = g1_add_at(&m1, &seg0[i]);
            i = i + 1;
        }
        let mn = m * n;
        let part_c1 = g1_sub_at(&g1_scale_at(&g1_sub_at(&x0, &srs.X1P[mn]), &rr[1]), &g1_scale_at(&x0, &rr[0]));
        let x0gn = g1_scale_at(&x0, &gn);
        let mut pts: Vec<G1> = Vec::new();
        pts.push(blind_point(&r_x, 0));
        pts.push(blind_point(&q_x, 1));
        pts.push(blind_point(&a_x, 2));
        pts.push(blind_point(&s_x, 3));
        pts.push(blind_point(&p_x, 4));
        pts.push(blind_point(&p_r_x, 5));
        pts.push(blind_point(&pi, 6));
        pts.push(blind_point(&pi1, 7));
        pts.push(g1_scale_at(&x0, &z));
        let c0a = g1_add_at(&g1_scale_at(&m1, &rr[2]), &part_c1);
        let c0b = g1_add_at(&c0a, &g1_scale_at(&g1_scale_at(&y, &rr[2]), &rr[8]));
        pts.push(g1_add_at(&c0b, &g1_scale_at(&a_x.to_projective(), &rr[8])));
        let inv_m = fe_inv(&Fe::from_u64((m as u32) as u64));
        pts.push(g1_sub_at(&g1_scale_at(&x0, &fe_sub(&rr[0], &fe_mul(&fc_r, &inv_m))), &g1_scale_at(&srs.X1P[n], &rr[3])));
        pts.push(g1_sub_at(&g1_scale_at(&srs.X1P[big_n - n], &fc_r), &g1_scale_at(&x0, &rr[4])));
        pts.push(g1_sub_at(&g1_scale_at(&srs.X1P[big_n - mn], &rr[0]), &g1_scale_at(&x0, &rr[5])));
        pts.push(g1_add_at(&g1_scale_at(&x0, &fa_r), &g1_scale_at(&g1_sub_at(&x0gn, &srs.X1P[1]), &rr[6])));
        pts.push(g1_add_at(&g1_scale_at(&x0, &rr[2]), &g1_scale_at(&g1_sub_at(&x0gn, &srs.X1P[n]), &rr[7])));
        let mut m2: Vec<G2> = Vec::new();
        m2.push(g2_add_at(&setup.1[0].to_projective(), &g2_scale_at(&srs.Y2P, &rr[8])));
        proof {
            let sv = affine_views(setup.0@);
            let x1a = affine_views(srs.X1A@);
            assert forall|i: int| 0 <= i < m implies g1_views(a_bases@)[i] == g1_proj_view(x1a[n * i]) by {
                assert(n * i <= n * (m - 1)) by (nonlinear_arith)
                    requires
                        0 <= i <= m - 1,
                ;
            }
            assert(g1_views(a_bases@) =~= Seq::new(m as nat, |i: int| g1_proj_view(x1a[n * i])));
            assert(g1_views(p_bases@) =~= projs(x1a.subrange(big_n - n, big_n as int)));
            assert(fe_views(h@) =~= Seq::new(
                m as nat,
                |i: int| fmul(fsub(fe_views(fa.raw@)[i], z@), finv(fsub(domain_element(m as nat, i as nat), gn@))),
            ));
            let want = cqlin_proof_points(
                sv,
                x1a,
                g1_views(srs.X1P@),
                srs.Y1P@,
                fe_views(fa_raw@),
                fe_views(fa.poly@),
                fe_views(fc.poly@),
                fa_r@,
                fc_r@,
                fe_views(blinds.r@),
                gn@,
                m as nat,
                n as nat,
                big_n as nat,
            );
            assert(g1_views(pts@) =~= want);
        }
        (pts, m2, gammas)
    }
}

/// Sums over a prefix read only that prefix of the first sequence.
proof fn lemma_dot_prefix(a: Seq<nat>, b: Seq<nat>, w: Seq<nat>, k: nat)
    requires
        k <= a.len(),
        k <= b.len(),
        forall|i: int| 0 <= i < k ==> a[i] == b[i],
    ensures
        fe_dot(a, w, k) == fe_dot(b, w, k),
    decreases k,
{
    if k > 0 {
        lemma_dot_prefix(a, b, w, (k - 1) as nat);
    }
}

/// Doubling from `p >= 1` up to `n` takes at most `n` steps.
proof fn lemma_doublings_small(p: nat, n: nat)
    requires
        p >= 1,
    ensures
        doublings_from(p, n) <= if n > p { n - p } else { 0 },
    decreases if n > p { n - p } else { 0 },
{
    if p < n {
        lemma_doublings_small(2 * p, n);
    }
}

} // verus!
