//! Folding a lookup proof into an accumulated one: the error terms that the
//! two proofs leave, and the new accumulator for a folding challenge.
use crate::accumulator::{acc_proof_to_cq_acc, cq_acc_proof_fits, fold_fr, fold_g1, fold_g2, scale_fes, scale_g1s, AccHolder};
use crate::curve::{g1_add, g1_add_at, g1_scale, g1_scale_at, g1_views, g2_add, g2_scale, G1, G2};
use crate::field::{fadd, fe_add, fe_mul, fe_neg, fe_views, fmul, fneg, Fe};
use vstd::prelude::*;

verus! {

/// The views of a sequence of points of the second group.
pub open spec fn g2_views(s: Seq<G2>) -> Seq<((nat, nat), (nat, nat), (nat, nat))> {
    s.map_values(|p: G2| p@)
}

/// `a * k` in the first group.
pub open spec fn gs(a: (nat, nat, nat), k: nat) -> (nat, nat, nat) {
    g1_scale(a, k)
}

/// `a + b` in the first group.
pub open spec fn ga(a: (nat, nat, nat), b: (nat, nat, nat)) -> (nat, nat, nat) {
    g1_add(a, b)
}

/// The first-group part of the error term of the lookup side of a proof `p`
/// (first-group `p`, field `f`) against the accumulated `a`, `af` with
/// factor `mu`; `x1` and `y1` are the commitment key's generator and
/// blinding base.
pub open spec fn cq_err1_g1(
    p: Seq<(nat, nat, nat)>,
    f: Seq<nat>,
    a: Seq<(nat, nat, nat)>,
    af: Seq<nat>,
    mu: nat,
    x1: (nat, nat, nat),
    y1: (nat, nat, nat),
) -> Seq<(nat, nat, nat)> {
    seq![
        p[1],
        a[1],
        gs(a[1], f[0]),
        gs(p[1], af[0]),
        ga(a[2], gs(p[2], mu)),
        ga(gs(p[0], mu), a[0]),
        ga(
            ga(
                ga(
                    ga(ga(ga(ga(a[14], gs(p[14], mu)), gs(a[17], f[2])), gs(p[17], af[2])), gs(a[16], f[1])),
                    gs(p[16], af[1]),
                ),
                gs(x1, fadd(fmul(f[0], af[1]), fmul(af[0], f[1]))),
            ),
            gs(y1, fadd(fmul(af[2], f[1]), fmul(af[1], f[2]))),
        ),
    ]
}

/// The first-group part of the error term of the input side.
pub open spec fn cq_err3_g1(
    p: Seq<(nat, nat, nat)>,
    f: Seq<nat>,
    a: Seq<(nat, nat, nat)>,
    af: Seq<nat>,
    mu: nat,
    x1: (nat, nat, nat),
    y1: (nat, nat, nat),
) -> Seq<(nat, nat, nat)> {
    seq![
        p[5],
        a[5],
        ga(a[6], gs(p[6], mu)),
        ga(gs(p[5], mu), a[5]),
        ga(
            ga(
                ga(
                    ga(ga(ga(ga(a[15], gs(p[15], mu)), gs(a[18], f[4])), gs(p[18], af[4])), gs(a[19], f[3])),
                    gs(p[19], af[3]),
                ),
                gs(x1, fadd(fmul(af[3], f[0]), fmul(af[0], f[3]))),
            ),
            gs(y1, fadd(fmul(af[3], f[4]), fmul(af[4], f[3]))),
        ),
    ]
}

/// The proofs `cq_acc_prove` folds: a prover's lookup proof of 20, 2 and 5
/// elements, and a non-empty accumulated prover's proof.
pub open spec fn cq_fold_accepts(proof: (Seq<G1>, Seq<G2>, Seq<Fe>), acc: (Seq<G1>, Seq<G2>, Seq<Fe>)) -> bool {
    &&& proof.0.len() == 20 && proof.1.len() == 2 && proof.2.len() == 5
    &&& acc.0.len() > 0
    &&& cq_acc_proof_fits(acc.0, acc.1, acc.2, true)
}

pub(crate) fn g1_plus_scaled(a: &G1, p: &G1, k: &Fe) -> (r: G1)
    ensures
        r@ == ga(a@, gs(p@, k@)),
{
    let t = g1_scale_at(p, k);
    g1_add_at(a, &t)
}

fn scaled_plus_g1(p: &G1, k: &Fe, a: &G1) -> (r: G1)
    ensures
        r@ == ga(gs(p@, k@), a@),
{
    let t = g1_scale_at(p, k);
    g1_add_at(&t, a)
}

/// `a*b + c*d` in the field.
fn cross(a: &Fe, b: &Fe, c: &Fe, d: &Fe) -> (r: Fe)
    ensures
        r@ == fadd(fmul(a@, b@), fmul(c@, d@)),
{
    let x = fe_mul(a, b);
    let y = fe_mul(c, d);
    fe_add(&x, &y)
}

/// The error terms' first-group elements, for one side of the proof: the
/// indices of the commitment, its quotient, its blinded parts and the
/// factors, as laid out in the lookup proof.
fn err_g1(
    p: &Vec<G1>,
    f: &Vec<Fe>,
    a: &Vec<G1>,
    af: &Vec<Fe>,
    mu: &Fe,
    x1: &G1,
    y1: &G1,
    lookup_side: bool,
) -> (r: Vec<G1>)
    requires
        p@.len() == 20,
        f@.len() == 5,
        a@.len() >= 20,
        af@.len() >= 5,
    ensures
        lookup_side ==> g1_views(r@) == cq_err1_g1(g1_views(p@), fe_views(f@), g1_views(a@), fe_views(af@), mu@, x1@, y1@),
        !lookup_side ==> g1_views(r@) == cq_err3_g1(g1_views(p@), fe_views(f@), g1_views(a@), fe_views(af@), mu@, x1@, y1@),
{
    let mut r: Vec<G1> = Vec::new();
    if lookup_side {
        r.push(p[1]);
        r.push(a[1]);
        r.push(g1_scale_at(&a[1], &f[0]));
        r.push(g1_scale_at(&p[1], &af[0]));
        r.push(g1_plus_scaled(&a[2], &p[2], mu));
        r.push(scaled_plus_g1(&p[0], mu, &a[0]));
        let mut t = g1_plus_scaled(&a[14], &p[14], mu);
        t = g1_plus_scaled(&t, &a[17], &f[2]);
        t = g1_plus_scaled(&t, &p[17], &af[2]);
        t = g1_plus_scaled(&t, &a[16], &f[1]);
        t = g1_plus_scaled(&t, &p[16], &af[1]);
        t = g1_plus_scaled(&t, x1, &cross(&f[0], &af[1], &af[0], &f[1]));
        t = g1_plus_scaled(&t, y1, &cross(&af[2], &f[1], &af[1], &f[2]));
        r.push(t);
        proof {
            assert(g1_views(r@) =~= cq_err1_g1(g1_views(p@), fe_views(f@), g1_views(a@), fe_views(af@), mu@, x1@, y1@));
        }
    } else {
        r.push(p[5]);
        r.push(a[5]);
        r.push(g1_plus_scaled(&a[6], &p[6], mu));
        r.push(scaled_plus_g1(&p[5], mu, &a[5]));
        let mut t = g1_plus_scaled(&a[15], &p[15], mu);
        t = g1_plus_scaled(&t, &a[18], &f[4]);
        t = g1_plus_scaled(&t, &p[18], &af[4]);
        t = g1_plus_scaled(&t, &a[19], &f[3]);
        t = g1_plus_scaled(&t, &p[19], &af[3]);
        t = g1_plus_scaled(&t, x1, &cross(&af[3], &f[0], &af[0], &f[3]));
        t = g1_plus_scaled(&t, y1, &cross(&af[3], &f[4], &af[4], &f[3]));
        r.push(t);
        proof {
            assert(g1_views(r@) =~= cq_err3_g1(g1_views(p@), fe_views(f@), g1_views(a@), fe_views(af@), mu@, x1@, y1@));
        }
    }
    r
}

/// Each point times `k`.
pub open spec fn scaled(s: Seq<(nat, nat, nat)>, k: nat) -> Seq<(nat, nat, nat)> {
    s.map_values(|e: (nat, nat, nat)| gs(e, k))
}

/// The accumulated error term of one side after folding: the first `ko`
/// old elements, the first `kn` new (scaled) ones, then the last three old
/// elements each plus the matching new one.
pub open spec fn folded_err(old: Seq<(nat, nat, nat)>, new: Seq<(nat, nat, nat)>, ko: int, kn: int) -> Seq<(nat, nat, nat)> {
    old.subrange(0, ko) + new.subrange(0, kn) + seq![
        ga(old[ko], new[kn]),
        ga(old[ko + 1], new[kn + 1]),
        ga(old[ko + 2], new[kn + 2]),
    ]
}

/// `old[..ko] ++ new[..kn] ++ [old[ko+i] + new[kn+i] for i < 3]`.
pub(crate) fn fold_err(old: &Vec<G1>, new: &Vec<G1>, ko: usize, kn: usize) -> (r: Vec<G1>)
    requires
        ko + 3 <= usize::MAX,
        kn + 3 <= usize::MAX,
        old@.len() == ko + 3,
        new@.len() == kn + 3,
    ensures
        g1_views(r@) == folded_err(g1_views(old@), g1_views(new@), ko as int, kn as int),
{
    let mut r: Vec<G1> = Vec::new();
    let mut k: usize = 0;
    while k < ko
        invariant
            old@.len() == ko + 3,
            k <= ko,
            r@.len() == k,
            g1_views(r@) == g1_views(old@).subrange(0, k as int),
        decreases ko - k,
    {
        r.push(old[k]);
        k = k + 1;
        proof {
            assert(g1_views(r@) =~= g1_views(old@).subrange(0, k as int));
        }
    }
    k = 0;
    while k < kn
        invariant
            old@.len() == ko + 3,
            new@.len() == kn + 3,
            k <= kn,
            r@.len() == ko + k,
            g1_views(r@) == g1_views(old@).subrange(0, ko as int) + g1_views(new@).subrange(0, k as int),
        decreases kn - k,
    {
        let ghost r0 = r@;
        r.push(new[k]);
        k = k + 1;
        proof {
            let want = g1_views(old@).subrange(0, ko as int) + g1_views(new@).subrange(0, k as int);
            assert forall|i: int| 0 <= i < r@.len() implies g1_views(r@)[i] == want[i] by {
                if i < r0.len() {
                    assert(r@[i] == r0[i]);
                    assert(g1_views(r0)[i] == r0[i]@);
                }
            }
            assert(g1_views(r@) =~= want);
        }
    }
    r.push(g1_add_at(&old[ko], &new[kn]));
    r.push(g1_add_at(&old[ko + 1], &new[kn + 1]));
    r.push(g1_add_at(&old[ko + 2], &new[kn + 2]));
    proof {
        assert(g1_views(r@) =~= folded_err(g1_views(old@), g1_views(new@), ko as int, kn as int));
    }
    r
}

/// Folds a prover's lookup proof into an accumulated prover's proof with the
/// folding challenge `gamma` (drawn by the caller from the transcript of the
/// two proofs and their error terms). `x1` and `y1` are the commitment key's
/// generator and blinding base. The new accumulator holds every element of
/// the proof times `gamma` plus the accumulated one, `mu + gamma`, the two
/// error terms of this step, and the accumulated error terms extended by
/// them.
pub fn cq_acc_prove(
    x1: &G1,
    y1: &G1,
    acc: (&Vec<G1>, &Vec<G2>, &Vec<Fe>),
    proof: (&Vec<G1>, &Vec<G2>, &Vec<Fe>),
    gamma: &Fe,
) -> (r: AccHolder<G1, G2>)
    requires
        cq_fold_accepts((proof.0@, proof.1@, proof.2@), (acc.0@, acc.1@, acc.2@)),
    ensures
        ({
            let (p, q, f) = (g1_views(proof.0@), g2_views(proof.1@), fe_views(proof.2@));
            let (a, aq, af) = (g1_views(acc.0@), g2_views(acc.1@), fe_views(acc.2@));
            let mu = af[af.len() - 1];
            let g = gamma@;
            let e1 = cq_err1_g1(p, f, a, af, mu, x1@, y1@);
            let e3 = cq_err3_g1(p, f, a, af, mu, x1@, y1@);
            &&& r.acc_g1@.len() == 20
            &&& forall|k: int| 0 <= k < 20 ==> (#[trigger] r.acc_g1@[k])@ == ga(gs(p[k], g), a[k])
            &&& r.acc_g2@.len() == 2
            &&& forall|k: int| 0 <= k < 2 ==> (#[trigger] r.acc_g2@[k])@ == g2_add(g2_scale(q[k], g), aq[k])
            &&& r.acc_fr@.len() == 5
            &&& forall|k: int| 0 <= k < 5 ==> (#[trigger] r.acc_fr@[k])@ == fadd(fmul(f[k], g), af[k])
            &&& r.mu@ == fadd(mu, g)
            &&& r.errs@.len() == 2
            &&& g1_views(r.errs@[0].0@) == e1
            &&& g2_views(r.errs@[0].1@) == seq![aq[0], q[0]]
            &&& r.errs@[0].2@.len() == 0
            &&& g1_views(r.errs@[1].0@) == e3
            &&& g2_views(r.errs@[1].1@) == seq![aq[1], q[1]]
            &&& fe_views(r.errs@[1].2@) == seq![fmul(fneg(2), mu)]
            &&& r.acc_errs@.len() == 2
            &&& g1_views(r.acc_errs@[0].0@) == folded_err(a.subrange(32, 39), scaled(e1, g), 4, 4)
            &&& g2_views(r.acc_errs@[0].1@) == aq.subrange(6, 8) + seq![aq[0], q[0]]
            &&& r.acc_errs@[0].2@.len() == 0
            &&& g1_views(r.acc_errs@[1].0@) == folded_err(a.subrange(39, 44), scaled(e3, g), 2, 2)
            &&& g2_views(r.acc_errs@[1].1@) == aq.subrange(8, 10) + seq![aq[1], q[1]]
            &&& fe_views(r.acc_errs@[1].2@) == seq![fmul(fmul(fneg(2), mu), g)]
        }),
{
    let h = acc_proof_to_cq_acc(acc, true);
    let mu = h.mu;
    let e1 = err_g1(proof.0, proof.2, acc.0, acc.2, &mu, x1, y1, true);
    let e3 = err_g1(proof.0, proof.2, acc.0, acc.2, &mu, x1, y1, false);
    let e1_g2: Vec<G2> = vec![acc.1[0], proof.1[0]];
    let e3_g2: Vec<G2> = vec![acc.1[1], proof.1[1]];
    let two = Fe::from_u64(2);
    let m2 = fe_mul(&fe_neg(&two), &mu);
    let e3_fr: Vec<Fe> = vec![m2];
    let acc_g1 = fold_g1(proof.0, acc.0, gamma);
    let acc_g2 = fold_g2(proof.1, acc.1, gamma);
    let acc_fr = fold_fr(proof.2, acc.2, gamma);
    let new_mu = fe_add(&mu, gamma);
    let s1 = scale_g1s(&e1, gamma);
    let s3 = scale_g1s(&e3, gamma);
    let s3f = scale_fes(&e3_fr, gamma);
    proof {
        assert(g1_views(e1@).len() == 7 && g1_views(e3@).len() == 5);
        assert(g1_views(h.acc_errs@[0].0@).len() == 7 && g1_views(h.acc_errs@[1].0@).len() == 5);
    }
    let n0 = fold_err(&h.acc_errs[0].0, &s1, 4, 4);
    let n1 = fold_err(&h.acc_errs[1].0, &s3, 2, 2);
    let mut n0g2: Vec<G2> = vec![h.acc_errs[0].1[0], h.acc_errs[0].1[1]];
    n0g2.push(acc.1[0]);
    n0g2.push(proof.1[0]);
    let mut n1g2: Vec<G2> = vec![h.acc_errs[1].1[0], h.acc_errs[1].1[1]];
    n1g2.push(acc.1[1]);
    n1g2.push(proof.1[1]);
    proof {
        let a = g1_views(acc.0@);
        let aq = g2_views(acc.1@);
        assert(g1_views(h.acc_errs@[0].0@) =~= a.subrange(32, 39));
        assert(g1_views(h.acc_errs@[1].0@) =~= a.subrange(39, 44));
        assert(g1_views(s1@) =~= scaled(g1_views(e1@), gamma@));
        assert(g1_views(s3@) =~= scaled(g1_views(e3@), gamma@));
        assert(g2_views(e1_g2@) =~= seq![aq[0], g2_views(proof.1@)[0]]);
        assert(g2_views(e3_g2@) =~= seq![aq[1], g2_views(proof.1@)[1]]);
        assert(g2_views(n0g2@) =~= aq.subrange(6, 8) + seq![aq[0], g2_views(proof.1@)[0]]);
        assert(g2_views(n1g2@) =~= aq.subrange(8, 10) + seq![aq[1], g2_views(proof.1@)[1]]);
        assert(fe_views(e3_fr@) =~= seq![fmul(fneg(2), mu@)]);
        assert(fe_views(s3f@) =~= seq![fmul(fmul(fneg(2), mu@), gamma@)]);
    }
    let errs = vec![(e1, e1_g2, Vec::new()), (e3, e3_g2, e3_fr)];
    let acc_errs = vec![(n0, n0g2, Vec::new()), (n1, n1g2, s3f)];
    AccHolder { acc_g1, acc_g2, acc_fr, mu: new_mu, errs, acc_errs }
}

} // verus!
