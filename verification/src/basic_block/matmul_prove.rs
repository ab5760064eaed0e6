//! The prover of a matrix product: the flattened rows, columns and outputs,
//! the commitments to the products `left` and `right` with their quotients
//! by the vanishing polynomials, and the blinding corrections.
use super::alternating::calc_pow;
use super::concat_check::{affine_views, fe_dot, pows_from1, projs, sub_vec, to_projs};
use super::cqlin_prove::{data_poly, flat_values};
use super::data::{trim, Data, SRS};
use super::matmul::MatMulBasicBlock;
use super::prover::{
    lemma_trim_twice, msm2_zip, msm2_zip_exec, msm_zip, msm_zip_exec, nat_sum, sum_exec, trim_exec, weighted_raw,
    weighted_sum,
};
use crate::curve::{
    g1_add, g1_add_at, g1_neg_at, g1_neg_proj, g1_proj_view, g1_scale, g1_scale_at, g1_sub, g1_sub_at, g1_views,
    g1_zero_view, g2_add, g2_add_at, g2_affine, g2_affine_at, g2_proj_view, g2_scale, g2_scale_at, msm_upto, G1Affine, G1,
    G2,
};
use crate::field::{fe_inv, fe_mul, fe_sub, fe_views, finv, fmul, fsub, interpolate, interpolate_at, Fe};
use crate::poly::{
    poly_difference, poly_mul_at, poly_product, poly_sub_at, vanishing_quotient, vanishing_quotient_at,
};
use crate::tensor::{lemma_next_pow, next_pow_spec};
use vstd::prelude::*;

verus! {

/// The prover's blinding scalars: seven for its own commitments, those of
/// the rows', columns' and outputs' commitments, and the blinds of the
/// flattened polynomials and of the columns' weights.
#[derive(Debug)]
pub struct MatMulBlinds {
    pub r: Vec<Fe>,
    pub a_rs: Vec<Fe>,
    pub b_rs: Vec<Fe>,
    pub c_rs: Vec<Fe>,
    pub flat_a: (Fe, Fe),
    pub flat_b: (Fe, Fe),
    pub flat_c: (Fe, Fe),
    pub beta_pow: (Fe, Fe),
}

/// The commitment `Data::new` makes to coefficients `p` with the first
/// powers `x1a`.
pub open spec fn data_commit(x1a: Seq<(nat, nat, bool)>, p: Seq<nat>) -> (nat, nat, nat) {
    msm_upto(projs(x1a), p, p.len())
}

/// The commitments of one product side: the polynomial `p` through the
/// values `raw` and those of `u * v`, its commitment, the commitment to the
/// quotient of `u * v - p` by the vanishing polynomial of the domain of
/// `k` points, and the commitment to `p` divided by `X`.
pub open spec fn side_points(
    xa: Seq<(nat, nat, nat)>,
    raw: Seq<nat>,
    u: Seq<nat>,
    v: Seq<nat>,
    k: nat,
) -> ((nat, nat, nat), (nat, nat, nat), (nat, nat, nat)) {
    let p = trim(interpolate(raw));
    let q = vanishing_quotient(poly_difference(poly_product(u, v), p), next_pow_spec(k));
    (
        msm_zip(xa, p),
        msm_zip(xa, q),
        if p.len() == 0 {
            g1_zero_view()
        } else {
            msm_zip(xa, p.drop_first())
        },
    )
}

/// The eleven first-group points of the proof, from the first powers in
/// affine and projective form, the blinding generator, the flattened rows
/// `fa`, columns `fb`, outputs `fc` and column weights `bp` with their
/// coefficients, the three flattened blinding scalars, the prover's seven
/// blinds and the sizes `m` and `n`.
pub open spec fn matmul_proof_points(
    x1a: Seq<(nat, nat, bool)>,
    x1p: Seq<(nat, nat, nat)>,
    y1p: (nat, nat, nat),
    fa: Seq<nat>,
    fb: Seq<nat>,
    fc: Seq<nat>,
    bp: Seq<nat>,
    fa_poly: Seq<nat>,
    fb_poly: Seq<nat>,
    fc_poly: Seq<nat>,
    bp_poly: Seq<nat>,
    fa_r: nat,
    fb_r: nat,
    fc_r: nat,
    r: Seq<nat>,
    m: nat,
    n: nat,
) -> Seq<(nat, nat, nat)> {
    let xa = projs(x1a);
    let left_raw = Seq::new(m, |i: int| fmul(fa[i], fb[i]));
    let right_raw = Seq::new(n, |i: int| fmul(fc[i], bp[i]));
    let left = side_points(xa, left_raw, fa_poly, fb_poly, m);
    let right = side_points(xa, right_raw, fc_poly, bp_poly, n);
    let left_zero = g1_scale(g1_proj_view(x1a[0]), fmul(finv((m as u32) as nat), nat_sum(left_raw, m)));
    let x0 = x1p[0];
    let part = g1_sub(g1_scale(g1_neg_proj(g1_sub(x1p[m as int], x0)), r[1]), g1_scale(x0, r[0]));
    let hid = |p: (nat, nat, nat), k: int| g1_add(p, g1_scale(y1p, r[k]));
    seq![
        hid(left.0, 0),
        hid(left.1, 1),
        hid(left_zero, 2),
        hid(left.2, 3),
        hid(right.0, 4),
        hid(right.1, 5),
        hid(right.2, 6),
        g1_add(
            g1_add(
                g1_add(part, g1_scale(data_commit(x1a, fa_poly), fb_r)),
                g1_scale(data_commit(x1a, fb_poly), fa_r),
            ),
            g1_scale(g1_scale(y1p, fa_r), fb_r),
        ),
        g1_add(g1_scale(g1_neg_proj(x1p[1]), r[3]), g1_scale(x0, fsub(r[0], r[2]))),
        g1_sub(
            g1_add(g1_scale(g1_neg_proj(g1_sub(x1p[n as int], x0)), r[5]), g1_scale(data_commit(x1a, bp_poly), fc_r)),
            g1_scale(x0, r[4]),
        ),
        g1_add(
            g1_scale(g1_neg_proj(x1p[1]), r[6]),
            g1_scale(x0, fsub(r[4], fmul(fmul(r[2], (m as u32) as nat), finv((n as u32) as nat)))),
        ),
    ]
}

/// The six first-group points a proof for folding adds: the blinded
/// commitments to the flattened rows, columns and outputs, the unblinded
/// part of the first correction, and the unblinded commitments to the
/// flattened rows and columns.
pub open spec fn matmul_fold_points(
    x1a: Seq<(nat, nat, bool)>,
    x1p: Seq<(nat, nat, nat)>,
    y1p: (nat, nat, nat),
    fa_poly: Seq<nat>,
    fb_poly: Seq<nat>,
    fc_poly: Seq<nat>,
    fa_r: nat,
    fb_r: nat,
    fc_r: nat,
    r: Seq<nat>,
    m: nat,
) -> Seq<(nat, nat, nat)> {
    let x0 = x1p[0];
    let part = g1_sub(g1_scale(g1_neg_proj(g1_sub(x1p[m as int], x0)), r[1]), g1_scale(x0, r[0]));
    let (a, b, c) = (data_commit(x1a, fa_poly), data_commit(x1a, fb_poly), data_commit(x1a, fc_poly));
    seq![g1_add(a, g1_scale(y1p, fa_r)), g1_add(b, g1_scale(y1p, fb_r)), g1_add(c, g1_scale(y1p, fc_r)), part, a, b]
}

/// What the prover accepts: `1 <= l` row vectors of at least `m` values,
/// `1 <= n` column vectors of at least `m` values, at least `l` output
/// vectors of at least `n` values, `1 <= m, n <= 2^26`, blinds for all of
/// them, and powers reaching the flattened polynomials, `m` and `n`.
pub open spec fn matmul_prove_accepts(
    srs: SRS,
    a: Seq<Data>,
    b: Seq<Data>,
    c: Seq<Data>,
    blinds: MatMulBlinds,
) -> bool {
    let l = a.len();
    let n = b.len();
    let m = a[0].raw@.len();
    &&& l >= 1
    &&& 1 <= n <= 67108864
    &&& 1 <= m <= 67108864
    &&& c.len() >= l
    &&& forall|i: int| 0 <= i < l ==> (#[trigger] a[i]).raw@.len() >= m
    &&& forall|i: int| 0 <= i < n ==> (#[trigger] b[i]).raw@.len() >= m
    &&& forall|i: int| 0 <= i < l ==> (#[trigger] c[i]).raw@.len() >= n
    &&& blinds.r@.len() == 7
    &&& blinds.a_rs@.len() >= l
    &&& blinds.b_rs@.len() >= n
    &&& blinds.c_rs@.len() >= l
    &&& srs.X1A@.len() >= next_pow_spec(m) + 2
    &&& srs.X1A@.len() >= next_pow_spec(n) + 2
    &&& srs.X1P@.len() > m
    &&& srs.X1P@.len() > n
    &&& srs.X1P@.len() >= 2
    &&& m as u32 != 0
    &&& n as u32 != 0
}

/// The products of the flattened polynomials fit a domain: what the
/// prover's polynomial multiplications need.
pub open spec fn matmul_products_fit(fa_poly: Seq<nat>, fb_poly: Seq<nat>, fc_poly: Seq<nat>, bp_poly: Seq<nat>) -> bool {
    &&& fa_poly.len() + fb_poly.len() <= 268435456
    &&& fc_poly.len() + bp_poly.len() <= 268435456
}

/// The commitments of one product side, as `side_points` states them.
fn side_commitments(xa: &Vec<G1>, raw: &Vec<Fe>, u: &Vec<Fe>, v: &Vec<Fe>, k: usize) -> (r: (G1, G1, G1))
    requires
        raw@.len() <= 268435456,
        k <= 268435456,
        u@.len() + v@.len() <= 268435456,
        trim(fe_views(u@)) == fe_views(u@),
    ensures
        (r.0@, r.1@, r.2@) == side_points(g1_views(xa@), fe_views(raw@), fe_views(u@), fe_views(v@), k as nat),
{
    let p = trim_exec(&interpolate_at(raw));
    let uv = poly_mul_at(u, v);
    proof {
        lemma_trim_twice(interpolate(fe_views(raw@)));
        lemma_trim_twice(Seq::new(
            u@.len() + v@.len(),
            |k: int| crate::poly::conv_sum(fe_views(u@), fe_views(v@), k, u@.len()),
        ));
    }
    let d = poly_sub_at(&uv, &p);
    let q = vanishing_quotient_at(&d, k);
    let zero_div = if p.len() == 0 {
        G1::zero()
    } else {
        let t = sub_vec(&p, 1, p.len());
        proof {
            assert(fe_views(t@) =~= fe_views(p@).drop_first());
        }
        msm_zip_exec(xa, &t)
    };
    (msm_zip_exec(xa, &p), msm_zip_exec(xa, &q), zero_div)
}

impl MatMulBasicBlock {
    /// Proves the product of the rows `a` by the columns `b` giving the
    /// outputs `c`, with the row challenge `alpha` and the column challenge
    /// `beta` drawn by the caller and the blinds `blinds`: eleven
    /// first-group points (`left, left_Q, left(0), left/X, right, right_Q,
    /// right/X`, each hidden by a blind, then four corrections), the
    /// flattened columns committed in the second group, and no values.
    pub fn prove(
        &self,
        srs: &SRS,
        a: &Vec<Data>,
        b: &Vec<Data>,
        c: &Vec<Data>,
        alpha: &Fe,
        beta: &Fe,
        blinds: &MatMulBlinds,
        fold: bool,
    ) -> (r: (Vec<G1>, Vec<G2>, Vec<Fe>))
        requires
            matmul_prove_accepts(*srs, a@, b@, c@, *blinds),
            matmul_products_fit(
                data_poly(flat_values(a@, alpha@, a@.len(), a@[0].raw@.len()), (blinds.flat_a.0@, blinds.flat_a.1@)),
                data_poly(flat_values(b@, beta@, b@.len(), a@[0].raw@.len()), (blinds.flat_b.0@, blinds.flat_b.1@)),
                data_poly(flat_values(c@, alpha@, a@.len(), b@.len()), (blinds.flat_c.0@, blinds.flat_c.1@)),
                data_poly(pows_from1(beta@, b@.len()), (blinds.beta_pow.0@, blinds.beta_pow.1@)),
            ),
        ensures
            ({
                let l = a@.len();
                let n = b@.len();
                let m = a@[0].raw@.len();
                let fa = flat_values(a@, alpha@, l, m);
                let fb = flat_values(b@, beta@, n, m);
                let fc = flat_values(c@, alpha@, l, n);
                let bp = pows_from1(beta@, n);
                let wa = pows_from1(alpha@, l);
                let fb_poly = data_poly(fb, (blinds.flat_b.0@, blinds.flat_b.1@));
                let fb_r = fe_dot(fe_views(blinds.b_rs@), bp, n);
                let fa_r = fe_dot(fe_views(blinds.a_rs@), wa, l);
                let fc_r = fe_dot(fe_views(blinds.c_rs@), wa, l);
                let x1a = affine_views(srs.X1A@);
                let fa_poly = data_poly(fa, (blinds.flat_a.0@, blinds.flat_a.1@));
                let fc_poly = data_poly(fc, (blinds.flat_c.0@, blinds.flat_c.1@));
                let bp_poly = data_poly(bp, (blinds.beta_pow.0@, blinds.beta_pow.1@));
                let x2a = srs.X2A@.map_values(|q: crate::curve::G2Affine| q@);
                let points = matmul_proof_points(
                    x1a,
                    g1_views(srs.X1P@),
                    srs.Y1P@,
                    fa,
                    fb,
                    fc,
                    bp,
                    fa_poly,
                    fb_poly,
                    fc_poly,
                    bp_poly,
                    fa_r,
                    fb_r,
                    fc_r,
                    fe_views(blinds.r@),
                    m,
                    n,
                );
                let extra = matmul_fold_points(
                    x1a,
                    g1_views(srs.X1P@),
                    srs.Y1P@,
                    fa_poly,
                    fb_poly,
                    fc_poly,
                    fa_r,
                    fb_r,
                    fc_r,
                    fe_views(blinds.r@),
                    m,
                );
                &&& r.2@.len() == (if fold { 2int } else { 0int })
                &&& fold ==> r.2@[0]@ == fa_r && r.2@[1]@ == fb_r
                &&& r.1@.len() == (if fold { 2int } else { 1int })
                &&& r.1@[0]@ == g2_add(msm2_zip(x2a, fb_poly), g2_scale(srs.Y2P@, fb_r))
                &&& fold ==> r.1@[1]@ == g2_proj_view(g2_affine(msm2_zip(x2a, bp_poly)))
                &&& g1_views(r.0@) == (if fold { points + extra } else { points })
            }),
    {
        let l = a.len();
        let n = b.len();
        let m = a[0].raw.len();
        let apow = calc_pow(*alpha, l);
        let bpow = calc_pow(*beta, n);
        proof {
            assert(fe_views(apow@) =~= pows_from1(alpha@, l as nat));
            assert(fe_views(bpow@) =~= pows_from1(beta@, n as nat));
        }
        let bases = to_projs(&srs.X1A);
        let bp = Data::new(&bases, &bpow, blinds.beta_pow);
        let fa_raw = weighted_raw(a, &apow, m);
        let fb_raw = weighted_raw(b, &bpow, m);
        let fc_raw = weighted_raw(c, &apow, n);
        let ars = sub_vec(&blinds.a_rs, 0, l);
        let brs = sub_vec(&blinds.b_rs, 0, n);
        let crs = sub_vec(&blinds.c_rs, 0, l);
        let fa_r = weighted_sum(&ars, &apow);
        let fb_r = weighted_sum(&brs, &bpow);
        let fc_r = weighted_sum(&crs, &apow);
        proof {
            assert(fe_views(ars@) =~= fe_views(blinds.a_rs@).subrange(0, l as int));
            assert(fe_views(brs@) =~= fe_views(blinds.b_rs@).subrange(0, n as int));
            assert(fe_views(crs@) =~= fe_views(blinds.c_rs@).subrange(0, l as int));
            assert(fe_views(fa_raw@) =~= flat_values(a@, alpha@, l as nat, m as nat));
            assert(fe_views(fb_raw@) =~= flat_values(b@, beta@, n as nat, m as nat));
            assert(fe_views(fc_raw@) =~= flat_values(c@, alpha@, l as nat, n as nat));
            lemma_dot_prefix_all(fe_views(blinds.a_rs@), pows_from1(alpha@, l as nat), l as nat);
            lemma_dot_prefix_all(fe_views(blinds.b_rs@), pows_from1(beta@, n as nat), n as nat);
            lemma_dot_prefix_all(fe_views(blinds.c_rs@), pows_from1(alpha@, l as nat), l as nat);
            lemma_next_pow(m as nat);
            lemma_next_pow(n as nat);
        }
        let fa = Data::new(&bases, &fa_raw, blinds.flat_a);
        let fb = Data::new(&bases, &fb_raw, blinds.flat_b);
        let fc = Data::new(&bases, &fc_raw, blinds.flat_c);
        let mut left_raw: Vec<Fe> = Vec::new();
        let mut i: usize = 0;
        while i < m
            invariant
                i <= m,
                fa.raw@.len() == m,
                fb.raw@.len() == m,
                left_raw@.len() == i,
                forall|k: int| 0 <= k < i ==> (#[trigger] left_raw@[k])@ == fmul(fa.raw@[k]@, fb.raw@[k]@),
            decreases m - i,
        {
            left_raw.push(fe_mul(&fa.raw[i], &fb.raw[i]));
            i = i + 1;
        }
        let mut right_raw: Vec<Fe> = Vec::new();
        let mut i: usize = 0;
        while i < n
            invariant
                i <= n,
                fc.raw@.len() == n,
                bp.raw@.len() == n,
                right_raw@.len() == i,
                forall|k: int| 0 <= k < i ==> (#[trigger] right_raw@[k])@ == fmul(fc.raw@[k]@, bp.raw@[k]@),
            decreases n - i,
        {
            right_raw.push(fe_mul(&fc.raw[i], &bp.raw[i]));
            i = i + 1;
        }
        proof {
            lemma_trim_twice(super::data::blinded(interpolate(fe_views(fa_raw@)), next_pow_spec(m as nat), blinds.flat_a.0@, blinds.flat_a.1@));
            lemma_trim_twice(super::data::blinded(interpolate(fe_views(fc_raw@)), next_pow_spec(n as nat), blinds.flat_c.0@, blinds.flat_c.1@));
        }
        let left = side_commitments(&bases, &left_raw, &fa.poly, &fb.poly, m);
        let right = side_commitments(&bases, &right_raw, &fc.poly, &bp.poly, n);
        let left_sum = sum_exec(&left_raw);
        let ratio = fe_mul(&fe_inv(&Fe::from_u64((m as u32) as u64)), &left_sum);
        let left_zero = g1_scale_at(&srs.X1A[0].to_projective(), &ratio);
        let y = srs.Y1P;
        let rr = &blinds.r;
        let blind_point = |p: &G1, k: usize| -> (o: G1)
            requires
                k < rr@.len(),
            ensures
                o@ == g1_add(p@, g1_scale(y@, rr@[k as int]@)),
            { g1_add_at(p, &g1_scale_at(&y, &rr[k])) };
        let x0 = srs.X1P[0];
        let mut pts: Vec<G1> = Vec::new();
        pts.push(blind_point(&left.0, 0));
        pts.push(blind_point(&left.1, 1));
        pts.push(blind_point(&left_zero, 2));
        pts.push(blind_point(&left.2, 3));
        pts.push(blind_point(&right.0, 4));
        pts.push(blind_point(&right.1, 5));
        pts.push(blind_point(&right.2, 6));
        let part = g1_sub_at(&g1_scale_at(&g1_neg_at(&g1_sub_at(&srs.X1P[m], &x0)), &rr[1]), &g1_scale_at(&x0, &rr[0]));
        let c0 = g1_add_at(&g1_add_at(&part, &g1_scale_at(&fa.g1, &fb_r)), &g1_scale_at(&fb.g1, &fa_r));
        pts.push(g1_add_at(&c0, &g1_scale_at(&g1_scale_at(&y, &fa_r), &fb_r)));
        let neg_x1 = g1_neg_at(&srs.X1P[1]);
        pts.push(g1_add_at(&g1_scale_at(&neg_x1, &rr[3]), &g1_scale_at(&x0, &fe_sub(&rr[0], &rr[2]))));
        let c2 = g1_add_at(&g1_scale_at(&g1_neg_at(&g1_sub_at(&srs.X1P[n], &x0)), &rr[5]), &g1_scale_at(&bp.g1, &fc_r));
        pts.push(g1_sub_at(&c2, &g1_scale_at(&x0, &rr[4])));
        let mm = fe_mul(&fe_mul(&rr[2], &Fe::from_u64((m as u32) as u64)), &fe_inv(&Fe::from_u64((n as u32) as u64)));
        pts.push(g1_add_at(&g1_scale_at(&neg_x1, &rr[6]), &g1_scale_at(&x0, &fe_sub(&rr[4], &mm))));
        let mut g2s: Vec<G2> = Vec::new();
        g2s.push(g2_add_at(&msm2_zip_exec(&srs.X2A, &fb.poly), &g2_scale_at(&srs.Y2P, &fb_r)));
        proof {
            let x1a = affine_views(srs.X1A@);
            assert(g1_views(bases@) == projs(x1a));
            assert(fe_views(left_raw@) =~= Seq::new(m as nat, |i: int| fmul(fe_views(fa_raw@)[i], fe_views(fb_raw@)[i])));
            assert(fe_views(right_raw@) =~= Seq::new(n as nat, |i: int| fmul(fe_views(fc_raw@)[i], fe_views(bpow@)[i])));
            let want = matmul_proof_points(
                x1a,
                g1_views(srs.X1P@),
                srs.Y1P@,
                fe_views(fa_raw@),
                fe_views(fb_raw@),
                fe_views(fc_raw@),
                fe_views(bpow@),
                fe_views(fa.poly@),
                fe_views(fb.poly@),
                fe_views(fc.poly@),
                fe_views(bp.poly@),
                fa_r@,
                fb_r@,
                fc_r@,
                fe_views(rr@),
                m as nat,
                n as nat,
            );
            assert(g1_views(pts@) =~= want);
        }
        let ghost head = pts@;
        let mut frs: Vec<Fe> = Vec::new();
        if fold {
            pts.push(g1_add_at(&fa.g1, &g1_scale_at(&y, &fa_r)));
            pts.push(g1_add_at(&fb.g1, &g1_scale_at(&y, &fb_r)));
            pts.push(g1_add_at(&fc.g1, &g1_scale_at(&y, &fc_r)));
            pts.push(part);
            pts.push(fa.g1);
            pts.push(fb.g1);
            g2s.push(g2_affine_at(&msm2_zip_exec(&srs.X2A, &bp.poly)).to_projective());
            frs.push(fa_r);
            frs.push(fb_r);
            proof {
                let x1a = affine_views(srs.X1A@);
                let extra = matmul_fold_points(
                    x1a,
                    g1_views(srs.X1P@),
                    srs.Y1P@,
                    fe_views(fa.poly@),
                    fe_views(fb.poly@),
                    fe_views(fc.poly@),
                    fa_r@,
                    fb_r@,
                    fc_r@,
                    fe_views(rr@),
                    m as nat,
                );
                assert(g1_views(pts@) =~= g1_views(head) + extra);
            }
        }
        (pts, g2s, frs)
    }
}

/// A weighted sum over the first `k` values reads only those values.
proof fn lemma_dot_prefix_all(a: Seq<nat>, w: Seq<nat>, k: nat)
    requires
        k <= a.len(),
    ensures
        fe_dot(a.subrange(0, k as int), w, k) == fe_dot(a, w, k),
    decreases k,
{
    if k > 0 {
        lemma_dot_prefix_all(a, w, (k - 1) as nat);
        assert(fe_dot(a.subrange(0, k as int), w, (k - 1) as nat) == fe_dot(a.subrange(0, (k - 1) as int), w, (k - 1) as nat))
            by {
            lemma_dot_sub(a, w, (k - 1) as nat, k);
        }
    }
}

/// Prefixes of different lengths agree on the terms they share.
proof fn lemma_dot_sub(a: Seq<nat>, w: Seq<nat>, j: nat, k: nat)
    requires
        j <= k <= a.len(),
    ensures
        fe_dot(a.subrange(0, k as int), w, j) == fe_dot(a.subrange(0, j as int), w, j),
    decreases j,
{
    if j > 0 {
        lemma_dot_sub(a, w, (j - 1) as nat, k);
        assert(fe_dot(a.subrange(0, j as int), w, (j - 1) as nat) == fe_dot(a.subrange(0, (j - 1) as int), w, (j - 1) as nat)) by {
            lemma_dot_sub(a, w, (j - 1) as nat, j);
        }
    }
}

} // verus!
