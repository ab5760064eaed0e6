//! The verifier's side of concatenation along the last axis: the batched
//! pairing check of the permutation argument that ties the inputs' and the
//! output's polynomials together.
use super::alternating::calc_pow;
use super::concat::{
    lemma_prefix_sum_mono, poly_count, poly_count_exec, poly_counts, pow2_prefix_product, prefix_sum,
    ConcatLastDimBasicBlock,
};
use super::data::{enc_point, DataEnc, SRS};
use super::transpose::fpow;
use crate::curve::{
    g1_add, g1_add_at, g1_affine, g1_affine_at, g1_affine_neg_at, g1_neg_at, g1_neg_proj, g1_neg_view, g1_proj_view,
    g1_scale, g1_scale_at, g1_sub, g1_sub_at, g1_views, g2_affine, g2_affine_at, g2_proj_view, g2_sub, g2_sub_at, msm,
    msm_upto, G1Affine, G2Affine, G1,
};
use crate::field::{
    domain_element, domain_element_at, fadd, fe_add, fe_mul, fe_neg, fe_sub, fe_views, fmul, fneg, fsub, Fe,
};
use crate::tensor::Tensor;
use vstd::prelude::*;

verus! {

/// The challenges of the concatenation proof, in the order of its rounds,
/// drawn by the caller from the transcript.
#[derive(Clone, Copy, Debug)]
pub struct ConcatChallenges {
    pub w: Fe,
    pub beta: Fe,
    pub gamma: Fe,
    pub alpha: Fe,
    pub zeta: Fe,
    pub v: Fe,
    pub u: Fe,
}

/// The number of polynomials of the check: the output's (with the first
/// input's leading dimensions) and every input's.
pub open spec fn concat_polys(shapes: Seq<Vec<usize>>) -> nat {
    poly_count(shapes[0]@) + prefix_sum(poly_counts(shapes), shapes.len())
}

/// Shapes whose polynomial counts can be computed: each has a dimension,
/// every dimension rounds up to a power of two in a `u32`, the products fit
/// in a `usize`, and so does the total, with room for the proof's layout.
pub open spec fn concat_shapes_fit(shapes: Seq<Vec<usize>>) -> bool {
    &&& shapes.len() >= 1
    &&& forall|k: int| 0 <= k < shapes.len() ==> (#[trigger] shapes[k])@.len() >= 1
    &&& forall|k: int, d: int| 0 <= k < shapes.len() && 0 <= d < shapes[k]@.len() ==> #[trigger] shapes[k]@[d] <= 0x8000_0000
    &&& forall|k: int, m: nat|
        0 <= k < shapes.len() && m < shapes[k]@.len() ==> #[trigger] pow2_prefix_product(shapes[k]@, m) <= usize::MAX
    &&& 4 * concat_polys(shapes) + 8 <= usize::MAX
}

/// `x, x^2, ..., x^n`.
pub open spec fn pows_from1(x: nat, n: nat) -> Seq<nat> {
    Seq::new(n, |i: int| fpow(x, (i + 1) as nat))
}

/// The product of `beta (i + 1) zeta + f_i + gamma` over the first `k`
/// evaluations, from one.
pub open spec fn ft_prod(fz: Seq<nat>, beta: nat, zeta: nat, gamma: nat, k: nat) -> nat
    decreases k,
{
    if k == 0 {
        1
    } else {
        fmul(ft_prod(fz, beta, zeta, gamma, (k - 1) as nat), fadd(fadd(fmul(fmul(beta, k), zeta), fz[k - 1]), gamma))
    }
}

/// The product of `s_i beta + f_i + gamma` over the first `k` evaluations,
/// from one.
pub open spec fn gt_prod(sz: Seq<nat>, fz: Seq<nat>, beta: nat, gamma: nat, k: nat) -> nat
    decreases k,
{
    if k == 0 {
        1
    } else {
        fmul(gt_prod(sz, fz, beta, gamma, (k - 1) as nat), fadd(fadd(fmul(sz[k - 1], beta), fz[k - 1]), gamma))
    }
}

/// `sum a_i b_i` over the first `k` terms, from zero.
pub open spec fn fe_dot(a: Seq<nat>, b: Seq<nat>, k: nat) -> nat
    decreases k,
{
    if k == 0 {
        0
    } else {
        fadd(fe_dot(a, b, (k - 1) as nat), fmul(a[k - 1], b[k - 1]))
    }
}

/// The quotient commitment from its first `k` chunks: chunk `i` is scaled by
/// `zeta^(i n1)` and added, each partial sum taken back to affine form.
pub open spec fn chunks_folded(t: Seq<(nat, nat, bool)>, zeta: nat, n1: nat, k: nat) -> (nat, nat, bool)
    decreases k,
{
    if k <= 1 {
        t[0]
    } else {
        g1_affine(
            g1_add(
                g1_proj_view(chunks_folded(t, zeta, n1, (k - 1) as nat)),
                g1_scale(g1_proj_view(t[k - 1]), fpow(zeta, ((k - 1) * n1) as nat)),
            ),
        )
    }
}

/// The projective forms of affine points.
pub open spec fn projs(s: Seq<(nat, nat, bool)>) -> Seq<(nat, nat, nat)> {
    Seq::new(s.len(), |i: int| g1_proj_view(s[i]))
}

/// The views of affine points.
pub open spec fn affine_views(s: Seq<G1Affine>) -> Seq<(nat, nat, bool)> {
    s.map_values(|p: G1Affine| p@)
}

/// The commitments of a tensor's elements, in order.
pub open spec fn tensor_points(t: Tensor<DataEnc>) -> Seq<(nat, nat, nat)> {
    Seq::new(t.data@.len(), |j: int| enc_point(t.data@[j]))
}

/// The commitments of the first `k` inputs' elements, in order.
pub open spec fn inputs_points(inputs: Seq<Tensor<DataEnc>>, k: nat) -> Seq<(nat, nat, nat)>
    decreases k,
{
    if k == 0 {
        Seq::empty()
    } else {
        inputs_points(inputs, (k - 1) as nat) + tensor_points(inputs[k - 1])
    }
}

/// The four pairs of the check, from the proof's first-group points `p0`,
/// its values `p2`, the number of polynomials `m`, the domain size `n`, the
/// number `n1` of first-group powers, the first power `x1a0`, the
/// commitments `io` of the inputs and the output, and the challenges.
pub open spec fn concat_check_points(
    p0: Seq<(nat, nat, bool)>,
    p2: Seq<nat>,
    m: nat,
    n: nat,
    n1: nat,
    x1a0: (nat, nat, bool),
    io: Seq<(nat, nat, nat)>,
    ch: (nat, nat, nat, nat, nat, nat, nat),
) -> ((nat, nat, bool), (nat, nat, bool), (nat, nat, bool), (nat, nat, bool)) {
    let (w, beta, gamma, alpha, zeta, v, u) = ch;
    let l = p0.len();
    let t = p0.subrange(2, l - 2 * m - 4);
    let (wx, wgx) = (p0[l - 2 * m - 4], p0[l - 2 * m - 3]);
    let (c1, c2) = (p0[l - 2 * m - 2], p0[l - 2 * m - 1]);
    let (zgz, l0z) = (p2[0], p2[1]);
    let q1e = p2.subrange(2, p2.len() as int);
    let (sz, fz) = (q1e.subrange(0, m as int), q1e.subrange(m as int, q1e.len() as int));
    let ft = ft_prod(fz, beta, zeta, gamma, fz.len());
    let gt = gt_prod(sz, fz, beta, gamma, fz.len());
    let tx = chunks_folded(t, zeta, n1, t.len());
    let d = g1_sub(
        g1_scale(g1_proj_view(p0[1]), fadd(fadd(ft, fmul(alpha, l0z)), u)),
        g1_scale(g1_proj_view(tx), fsub(fpow(zeta, n), 1)),
    );
    let vs = pows_from1(v, 2 * m);
    let f = g1_add(d, msm_upto(projs(p0.subrange(l - 2 * m, l as int)), vs, 2 * m));
    let q1z = fe_dot(q1e, vs, q1e.len());
    let r0 = fsub(fmul(fneg(l0z), alpha), fmul(gt, zgz));
    let e = g1_scale(g1_proj_view(x1a0), fadd(fadd(fneg(r0), q1z), fmul(u, zgz)));
    let fj_sum = msm_upto(projs(p0.subrange(l - m, l as int)), pows_from1(w, m), m);
    let io_sum = msm_upto(io, pows_from1(w, io.len()), io.len());
    let omega = domain_element(n, 1);
    let inner = g1_sub(
        g1_add(
            g1_add(g1_scale(g1_proj_view(wx), zeta), g1_scale(g1_scale(g1_scale(g1_proj_view(wgx), u), omega), zeta)),
            f,
        ),
        e,
    );
    (
        g1_affine(g1_add(g1_proj_view(wx), g1_scale(g1_proj_view(wgx), u))),
        g1_affine(g1_add(g1_neg_proj(inner), g1_sub(io_sum, fj_sum))),
        g1_neg_view(p0[0]),
        g1_affine(g1_add(g1_proj_view(g1_neg_view(c1)), g1_proj_view(c2))),
    )
}

/// The number of polynomials of the check.
fn concat_poly_total(shapes: &Vec<Vec<usize>>) -> (r: usize)
    requires
        concat_shapes_fit(shapes@),
    ensures
        r == concat_polys(shapes@),
{
    let ghost p = poly_counts(shapes@);
    let n = shapes.len();
    assert(shapes@[0]@.len() >= 1);
    let first = poly_count_exec(&shapes[0]);
    let mut total = first;
    let mut k: usize = 0;
    while k < n
        invariant
            concat_shapes_fit(shapes@),
            p == poly_counts(shapes@),
            n == shapes@.len(),
            k <= n,
            first == poly_count(shapes@[0]@),
            total == first + prefix_sum(p, k as nat),
        decreases n - k,
    {
        assert(shapes@[k as int]@.len() >= 1);
        let c = poly_count_exec(&shapes[k]);
        proof {
            lemma_prefix_sum_mono(p, (k + 1) as nat, n as nat);
            assert(prefix_sum(p, (k + 1) as nat) == prefix_sum(p, k as nat) + c);
            assert(concat_polys(shapes@) == first + prefix_sum(p, n as nat));
        }
        total = total + c;
        k = k + 1;
    }
    total
}

/// The elements `a .. b` of a vector.
pub(crate) fn sub_vec<T: Copy>(v: &Vec<T>, a: usize, b: usize) -> (r: Vec<T>)
    requires
        a <= b <= v@.len(),
    ensures
        r@ == v@.subrange(a as int, b as int),
{
    let mut r: Vec<T> = Vec::new();
    let mut i = a;
    while i < b
        invariant
            a <= i <= b <= v@.len(),
            r@ == v@.subrange(a as int, i as int),
        decreases b - i,
    {
        r.push(v[i]);
        i = i + 1;
        proof {
            assert(r@ =~= v@.subrange(a as int, i as int));
        }
    }
    r
}

/// The projective forms of affine points.
pub(crate) fn to_projs(v: &Vec<G1Affine>) -> (r: Vec<G1>)
    ensures
        r@.len() == v@.len(),
        g1_views(r@) == projs(affine_views(v@)),
{
    let mut r: Vec<G1> = Vec::new();
    let mut i: usize = 0;
    while i < v.len()
        invariant
            i <= v@.len(),
            r@.len() == i,
            forall|k: int| 0 <= k < i ==> (#[trigger] r@[k])@ == g1_proj_view(v@[k]@),
        decreases v@.len() - i,
    {
        r.push(v[i].to_projective());
        i = i + 1;
    }
    assert(g1_views(r@) =~= projs(affine_views(v@)));
    r
}

/// The commitments of the inputs' elements and then of the output's.
fn io_bases(inputs: &Vec<Tensor<DataEnc>>, out: &Tensor<DataEnc>) -> (r: Vec<G1>)
    ensures
        r@.len() == io_len(inputs@, *out),
        g1_views(r@) == inputs_points(inputs@, inputs@.len() as nat) + tensor_points(*out),
{
    let mut r: Vec<G1> = Vec::new();
    let mut k: usize = 0;
    while k < inputs.len()
        invariant
            k <= inputs@.len(),
            g1_views(r@) == inputs_points(inputs@, k as nat),
        decreases inputs@.len() - k,
    {
        let t = &inputs[k];
        let ghost before = g1_views(r@);
        let mut j: usize = 0;
        while j < t.data.len()
            invariant
                k < inputs@.len(),
                j <= t.data@.len(),
                *t == inputs@[k as int],
                g1_views(r@) == before + tensor_points(*t).subrange(0, j as int),
            decreases t.data@.len() - j,
        {
            let q = t.data[j].g1.to_projective();
            let ghost old_r = r@;
            r.push(q);
            proof {
                assert(g1_views(r@) =~= g1_views(old_r).push(q@));
                assert(tensor_points(*t).subrange(0, j + 1) =~= tensor_points(*t).subrange(0, j as int).push(q@));
            }
            j = j + 1;
        }
        k = k + 1;
        proof {
            assert(tensor_points(*t).subrange(0, j as int) =~= tensor_points(*t));
        }
    }
    let ghost before = g1_views(r@);
    let mut j: usize = 0;
    while j < out.data.len()
        invariant
            j <= out.data@.len(),
            g1_views(r@) == before + tensor_points(*out).subrange(0, j as int),
        decreases out.data@.len() - j,
    {
        let q = out.data[j].g1.to_projective();
        let ghost old_r = r@;
        r.push(q);
        proof {
            assert(g1_views(r@) =~= g1_views(old_r).push(q@));
            assert(tensor_points(*out).subrange(0, j + 1) =~= tensor_points(*out).subrange(0, j as int).push(q@));
        }
        j = j + 1;
    }
    assert(tensor_points(*out).subrange(0, j as int) =~= tensor_points(*out));
    r
}

/// The products `ft` and `gt` over the evaluations `fz` and `sz`.
fn ft_gt(sz: &Vec<Fe>, fz: &Vec<Fe>, ch: &ConcatChallenges) -> (r: (Fe, Fe))
    requires
        fz@.len() <= sz@.len(),
        fz@.len() < 0x8000_0000,
    ensures
        r.0@ == ft_prod(fe_views(fz@), ch.beta@, ch.zeta@, ch.gamma@, fz@.len() as nat),
        r.1@ == gt_prod(fe_views(sz@), fe_views(fz@), ch.beta@, ch.gamma@, fz@.len() as nat),
{
    let mut ft = Fe::one();
    let mut gt = Fe::one();
    let mut i: usize = 0;
    while i < fz.len()
        invariant
            fz@.len() <= sz@.len(),
            fz@.len() < 0x8000_0000,
            i <= fz@.len(),
            ft@ == ft_prod(fe_views(fz@), ch.beta@, ch.zeta@, ch.gamma@, i as nat),
            gt@ == gt_prod(fe_views(sz@), fe_views(fz@), ch.beta@, ch.gamma@, i as nat),
        decreases fz@.len() - i,
    {
        let k = Fe::from_u64((i + 1) as u64);
        let a = fe_add(&fe_add(&fe_mul(&fe_mul(&ch.beta, &k), &ch.zeta), &fz[i]), &ch.gamma);
        let b = fe_add(&fe_add(&fe_mul(&sz[i], &ch.beta), &fz[i]), &ch.gamma);
        ft = fe_mul(&ft, &a);
        gt = fe_mul(&gt, &b);
        i = i + 1;
    }
    (ft, gt)
}

/// The quotient commitment from its chunks, `zp` holding `zeta, zeta^2, ...`.
fn fold_chunks(t: &Vec<G1Affine>, zp: &Vec<Fe>, n1: usize, zeta: Ghost<nat>) -> (r: G1Affine)
    requires
        t@.len() >= 1,
        t@.len() >= 2 ==> n1 >= 1,
        (t@.len() - 1) * n1 <= zp@.len(),
        forall|j: int| 0 <= j < zp@.len() ==> #[trigger] zp@[j]@ == fpow(zeta@, (j + 1) as nat),
    ensures
        r@ == chunks_folded(affine_views(t@), zeta@, n1 as nat, t@.len() as nat),
{
    let mut acc = t[0];
    let zlen = zp.len();
    let mut i: usize = 1;
    while i < t.len()
        invariant
            zlen == zp@.len(),
            1 <= i <= t@.len(),
            t@.len() >= 2 ==> n1 >= 1,
            (t@.len() - 1) * n1 <= zp@.len(),
            forall|j: int| 0 <= j < zp@.len() ==> #[trigger] zp@[j]@ == fpow(zeta@, (j + 1) as nat),
            acc@ == chunks_folded(affine_views(t@), zeta@, n1 as nat, i as nat),
        decreases t@.len() - i,
    {
        proof {
            assert(1 <= i * n1 <= (t@.len() - 1) * n1) by (nonlinear_arith)
                requires
                    1 <= i <= t@.len() - 1,
                    n1 >= 1,
            ;
        }
        let s = g1_scale_at(&t[i].to_projective(), &zp[i * n1 - 1]);
        acc = g1_affine_at(&g1_add_at(&acc.to_projective(), &s));
        i = i + 1;
    }
    acc
}

/// `sum a_i b_i` over `a`.
fn dot(a: &Vec<Fe>, b: &Vec<Fe>) -> (r: Fe)
    requires
        a@.len() <= b@.len(),
    ensures
        r@ == fe_dot(fe_views(a@), fe_views(b@), a@.len() as nat),
{
    let mut acc = Fe::zero();
    let mut i: usize = 0;
    while i < a.len()
        invariant
            a@.len() <= b@.len(),
            i <= a@.len(),
            acc@ == fe_dot(fe_views(a@), fe_views(b@), i as nat),
        decreases a@.len() - i,
    {
        acc = fe_add(&acc, &fe_mul(&a[i], &b[i]));
        i = i + 1;
    }
    acc
}

/// The number of elements of all inputs.
pub open spec fn io_len(inputs: Seq<Tensor<DataEnc>>, out: Tensor<DataEnc>) -> nat {
    inputs_points(inputs, inputs.len()).len() + out.data@.len()
}

/// What the check accepts, with `m` the number of polynomials and `n` the
/// domain size: the proof holds its fixed points, at least one quotient
/// chunk and `2 m` commitments, the values hold `m` permutation evaluations
/// and at most `m` others, the reference string reaches the needed powers,
/// and there are at most `m` committed elements.
pub open spec fn concat_check_accepts(
    m: nat,
    n: nat,
    srs: SRS,
    inputs: Seq<Tensor<DataEnc>>,
    out: Tensor<DataEnc>,
    p0_len: nat,
    p2_len: nat,
) -> bool {
    &&& m >= 1
    &&& 1 <= n <= 268435456
    &&& p0_len >= 2 * m + 7
    &&& m + 2 <= p2_len <= 2 * m + 2
    &&& p2_len - 2 - m < 0x8000_0000
    &&& srs.X1A@.len() >= 1
    &&& srs.X2A@.len() > n
    &&& srs.X2A@.len() >= 2
    &&& (p0_len - 2 * m - 6 >= 2 ==> srs.X1P@.len() >= 1)
    &&& srs.X1P@.len() * (p0_len - 2 * m - 7) <= usize::MAX
    &&& io_len(inputs, out) <= m
}

impl ConcatLastDimBasicBlock {
    /// The verifier's check of a concatenation along the last axis, with the
    /// challenges `ch`: the four pairs of the batched pairing check, whose
    /// pairings must multiply to one. The domain size is the output's length
    /// and the number of polynomials comes from the input shapes.
    pub fn verify(
        &self,
        srs: &SRS,
        inputs: &Vec<Tensor<DataEnc>>,
        outputs: &Vec<Tensor<DataEnc>>,
        proof: (&Vec<G1Affine>, &Vec<G2Affine>, &Vec<Fe>),
        ch: &ConcatChallenges,
    ) -> (r: Vec<Vec<(G1Affine, G2Affine)>>)
        requires
            concat_shapes_fit(self.input_shapes@),
            outputs@.len() >= 1,
            outputs@[0].data@.len() >= 1,
            concat_check_accepts(
                concat_polys(self.input_shapes@),
                outputs@[0].data@[0].len as nat,
                *srs,
                inputs@,
                outputs@[0],
                proof.0@.len(),
                proof.2@.len(),
            ),
        ensures
            r@.len() == 1,
            r@[0]@.len() == 4,
            ({
                let n = outputs@[0].data@[0].len as nat;
                let pts = concat_check_points(
                    affine_views(proof.0@),
                    fe_views(proof.2@),
                    concat_polys(self.input_shapes@),
                    n,
                    srs.X1P@.len(),
                    srs.X1A@[0]@,
                    inputs_points(inputs@, inputs@.len()) + tensor_points(outputs@[0]),
                    (ch.w@, ch.beta@, ch.gamma@, ch.alpha@, ch.zeta@, ch.v@, ch.u@),
                );
                &&& r@[0]@[0].0@ == pts.0
                &&& r@[0]@[0].1 == srs.X2A@[1]
                &&& r@[0]@[1].0@ == pts.1
                &&& r@[0]@[1].1 == srs.X2A@[0]
                &&& r@[0]@[2].0@ == pts.2
                &&& r@[0]@[2].1@ == g2_affine(g2_sub(g2_proj_view(srs.X2A@[n as int]@), g2_proj_view(srs.X2A@[0]@)))
                &&& r@[0]@[3].0@ == pts.3
                &&& r@[0]@[3].1 == srs.Y2A
            }),
    {
        let m = concat_poly_total(&self.input_shapes);
        let n = outputs[0].data[0].len;
        let omega = domain_element_at(n, 1);
        let p0 = proof.0;
        let p2 = proof.2;
        let l = p0.len();
        let qj = p0[0];
        let zx = p0[1];
        let t = sub_vec(p0, 2, l - 2 * m - 4);
        let wx = p0[l - 2 * m - 4];
        let wgx = p0[l - 2 * m - 3];
        let c1 = p0[l - 2 * m - 2];
        let c2 = p0[l - 2 * m - 1];
        let q1s = sub_vec(p0, l - 2 * m, l);
        let fjx = sub_vec(p0, l - m, l);
        let zgz = p2[0];
        let l0z = p2[1];
        let q1e = sub_vec(p2, 2, p2.len());
        let sz = sub_vec(&q1e, 0, m);
        let fz = sub_vec(&q1e, m, q1e.len());
        let (ft, gt) = ft_gt(&sz, &fz, ch);
        let n1 = srs.X1P.len();
        let tl = t.len();
        let span = n1 * (tl - 1);
        let zl = if n > span {
            n
        } else {
            span
        };
        let zp = calc_pow(ch.zeta, zl);
        proof {
            assert((tl - 1) * n1 == n1 * (tl - 1)) by (nonlinear_arith);
        }
        let tx = fold_chunks(&t, &zp, n1, Ghost(ch.zeta@));
        let dz = fe_add(&fe_add(&ft, &fe_mul(&ch.alpha, &l0z)), &ch.u);
        let van = fe_sub(&zp[n - 1], &Fe::one());
        let d = g1_sub_at(&g1_scale_at(&zx.to_projective(), &dz), &g1_scale_at(&tx.to_projective(), &van));
        let vs = calc_pow(ch.v, 2 * m);
        let f = g1_add_at(&d, &msm(&to_projs(&q1s), &vs));
        let q1z = dot(&q1e, &vs);
        let r0 = fe_sub(&fe_mul(&fe_neg(&l0z), &ch.alpha), &fe_mul(&gt, &zgz));
        let ez = fe_add(&fe_add(&fe_neg(&r0), &q1z), &fe_mul(&ch.u, &zgz));
        let e = g1_scale_at(&srs.X1A[0].to_projective(), &ez);
        let ws = calc_pow(ch.w, m);
        let fj_sum = msm(&to_projs(&fjx), &ws);
        let io = io_bases(inputs, &outputs[0]);
        let wio = sub_vec(&ws, 0, io.len());
        let io_sum = msm(&io, &wio);
        let first = g1_affine_at(&g1_add_at(&wx.to_projective(), &g1_scale_at(&wgx.to_projective(), &ch.u)));
        let a = g1_scale_at(&wx.to_projective(), &ch.zeta);
        let b = g1_scale_at(&g1_scale_at(&g1_scale_at(&wgx.to_projective(), &ch.u), &omega), &ch.zeta);
        let inner = g1_sub_at(&g1_add_at(&g1_add_at(&a, &b), &f), &e);
        let second = g1_affine_at(&g1_add_at(&g1_neg_at(&inner), &g1_sub_at(&io_sum, &fj_sum)));
        let third = g1_affine_neg_at(&qj);
        let g2 = g2_affine_at(&g2_sub_at(&srs.X2A[n].to_projective(), &srs.X2A[0].to_projective()));
        let fourth = g1_affine_at(&g1_add_at(&g1_affine_neg_at(&c1).to_projective(), &c2.to_projective()));
        proof {
            let pv = affine_views(p0@);
            let fv = fe_views(p2@);
            assert(affine_views(t@) =~= pv.subrange(2, l - 2 * m - 4));
            assert(affine_views(q1s@) =~= pv.subrange(l - 2 * m, l as int));
            assert(affine_views(fjx@) =~= pv.subrange(l - m, l as int));
            assert(fe_views(q1e@) =~= fv.subrange(2, p2@.len() as int));
            assert(fe_views(sz@) =~= fe_views(q1e@).subrange(0, m as int));
            assert(fe_views(fz@) =~= fe_views(q1e@).subrange(m as int, q1e@.len() as int));
            assert(fe_views(vs@) =~= pows_from1(ch.v@, 2 * m as nat));
            assert(fe_views(ws@) =~= pows_from1(ch.w@, m as nat));
            assert(fe_views(wio@) =~= pows_from1(ch.w@, io@.len() as nat));
            assert(zp@[n - 1]@ == fpow(ch.zeta@, n as nat));
        }
        let mut check: Vec<(G1Affine, G2Affine)> = Vec::new();
        check.push((first, srs.X2A[1]));
        check.push((second, srs.X2A[0]));
        check.push((third, g2));
        check.push((fourth, srs.Y2A));
        let mut r: Vec<Vec<(G1Affine, G2Affine)>> = Vec::new();
        r.push(check);
        r
    }
}

} // verus!
