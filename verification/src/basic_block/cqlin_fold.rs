//! Folding a linear-layer lookup proof into an accumulated one: the error
//! terms that the two proofs leave, and the new accumulator for a folding
//! challenge.
use super::cq_fold::{fold_err, folded_err, g1_plus_scaled, g2_views, ga, gs, scaled};
use crate::accumulator::{
    acc_proof_to_cqlin_acc, cqlin_acc_proof_fits, fold_fr, fold_g1, scale_g1s, AccHolder, ErrTerm,
};
use crate::curve::{g1_add_at, g1_scale_at, g1_sub, g1_sub_at, g1_views, g2_add, g2_add_at, g2_scale, g2_scale_at, G1, G2};
use crate::field::{fadd, fe_add, fe_mul, fe_sub, fe_views, fmul, fsub, Fe};
use vstd::prelude::*;

verus! {

/// The first-group part of the error term of the lookup argument, for a
/// proof `p`, `f` against the accumulated `a`, `af` with factor `mu`, where
/// the masks sit after the `log_n` sumcheck values and `y1` is the
/// commitment key's blinding base.
pub open spec fn cqlin_err1_g1(
    p: Seq<(nat, nat, nat)>,
    f: Seq<nat>,
    a: Seq<(nat, nat, nat)>,
    af: Seq<nat>,
    mu: nat,
    y1: (nat, nat, nat),
    log_n: int,
) -> Seq<(nat, nat, nat)> {
    let (ma, mm, ama, amm) = (f[log_n + 1], f[log_n + 2], af[log_n + 1], af[log_n + 2]);
    seq![
        p[2],
        a[2],
        ga(a[1], gs(p[1], mu)),
        ga(a[0], gs(p[0], mu)),
        ga(
            ga(ga(ga(ga(ga(a[17], gs(p[17], mu)), gs(a[18], ma)), gs(p[18], ama)), gs(a[19], mm)), gs(p[19], amm)),
            gs(y1, fadd(fmul(ma, amm), fmul(mm, ama))),
        ),
    ]
}

/// The first-group part of an opening error term: the commitment at `c`
/// (`2` for the input, `15` for the flattened input) against `z`, with the
/// opening proof at `pi` and the quotient at `q`.
pub open spec fn cqlin_open_err(
    p: Seq<(nat, nat, nat)>,
    f: Seq<nat>,
    a: Seq<(nat, nat, nat)>,
    af: Seq<nat>,
    mu: nat,
    log_n: int,
    c: int,
    pi: int,
    q: int,
) -> Seq<(nat, nat, nat)> {
    let (bk, abk) = (f[log_n], af[log_n]);
    seq![
        ga(ga(g1_sub(g1_sub(ga(a[c], gs(p[c], mu)), a[8]), gs(p[8], mu)), gs(a[pi], bk)), gs(p[pi], abk)),
        ga(a[pi], gs(p[pi], mu)),
        ga(a[q], gs(p[q], mu)),
    ]
}

/// The error value of sumcheck round `i`.
pub open spec fn cqlin_err8(f: Seq<nat>, af: Seq<nat>, mu: nat, i: int) -> nat {
    fsub(fsub(fadd(fmul(f[i], af[i]), fmul(f[i], af[i])), af[i + 1]), fmul(f[i + 1], mu))
}

/// The proofs `cqlin_acc_prove` folds: a prover's proof of 20, 1 and
/// `log_n + 3` elements, and a non-empty accumulated prover's proof.
pub open spec fn cqlin_fold_accepts(proof: (Seq<G1>, Seq<G2>, Seq<Fe>), acc: (Seq<G1>, Seq<G2>, Seq<Fe>), log_n: nat) -> bool {
    &&& log_n <= 64
    &&& proof.0.len() == 20 && proof.1.len() == 1 && proof.2.len() == log_n + 3
    &&& acc.0.len() > 0
    &&& cqlin_acc_proof_fits(acc.0, acc.1, acc.2, log_n as int, true)
}

fn sub_scaled(a: &G1, p: &G1, k: &Fe) -> (r: G1)
    ensures
        r@ == g1_sub(a@, gs(p@, k@)),
{
    let t = g1_scale_at(p, k);
    g1_sub_at(a, &t)
}

fn err1_g1(p: &Vec<G1>, f: &Vec<Fe>, a: &Vec<G1>, af: &Vec<Fe>, mu: &Fe, y1: &G1, log_n: usize) -> (r: Vec<G1>)
    requires
        log_n <= 64,
        p@.len() == 20,
        f@.len() == log_n + 3,
        a@.len() >= 20,
        af@.len() >= log_n + 3,
    ensures
        g1_views(r@) == cqlin_err1_g1(g1_views(p@), fe_views(f@), g1_views(a@), fe_views(af@), mu@, y1@, log_n as int),
{
    let mut r: Vec<G1> = Vec::new();
    r.push(p[2]);
    r.push(a[2]);
    r.push(g1_plus_scaled(&a[1], &p[1], mu));
    r.push(g1_plus_scaled(&a[0], &p[0], mu));
    let mut t = g1_plus_scaled(&a[17], &p[17], mu);
    t = g1_plus_scaled(&t, &a[18], &f[log_n + 1]);
    t = g1_plus_scaled(&t, &p[18], &af[log_n + 1]);
    t = g1_plus_scaled(&t, &a[19], &f[log_n + 2]);
    t = g1_plus_scaled(&t, &p[19], &af[log_n + 2]);
    let x = fe_mul(&f[log_n + 1], &af[log_n + 2]);
    let y = fe_mul(&f[log_n + 2], &af[log_n + 1]);
    t = g1_plus_scaled(&t, y1, &fe_add(&x, &y));
    r.push(t);
    proof {
        assert(g1_views(r@) =~= cqlin_err1_g1(g1_views(p@), fe_views(f@), g1_views(a@), fe_views(af@), mu@, y1@, log_n as int));
    }
    r
}

fn open_err(p: &Vec<G1>, f: &Vec<Fe>, a: &Vec<G1>, af: &Vec<Fe>, mu: &Fe, log_n: usize, c: usize, pi: usize, q: usize) -> (r: Vec<G1>)
    requires
        log_n <= 64,
        p@.len() == 20,
        f@.len() == log_n + 3,
        a@.len() >= 20,
        af@.len() >= log_n + 3,
        c < 20 && pi < 20 && q < 20,
    ensures
        g1_views(r@) == cqlin_open_err(
            g1_views(p@),
            fe_views(f@),
            g1_views(a@),
            fe_views(af@),
            mu@,
            log_n as int,
            c as int,
            pi as int,
            q as int,
        ),
{
    let mut t = g1_plus_scaled(&a[c], &p[c], mu);
    t = g1_sub_at(&t, &a[8]);
    t = sub_scaled(&t, &p[8], mu);
    t = g1_plus_scaled(&t, &a[pi], &f[log_n]);
    t = g1_plus_scaled(&t, &p[pi], &af[log_n]);
    let mut r: Vec<G1> = Vec::new();
    r.push(t);
    r.push(g1_plus_scaled(&a[pi], &p[pi], mu));
    r.push(g1_plus_scaled(&a[q], &p[q], mu));
    proof {
        assert(g1_views(r@) =~= cqlin_open_err(
            g1_views(p@),
            fe_views(f@),
            g1_views(a@),
            fe_views(af@),
            mu@,
            log_n as int,
            c as int,
            pi as int,
            q as int,
        ));
    }
    r
}

/// `old[k] + new[k]` for each of three places.
fn add3(old: &Vec<G1>, new: &Vec<G1>) -> (r: Vec<G1>)
    requires
        old@.len() == 3,
        new@.len() == 3,
    ensures
        g1_views(r@) == seq![
            ga(old@[0]@, new@[0]@),
            ga(old@[1]@, new@[1]@),
            ga(old@[2]@, new@[2]@),
        ],
{
    let mut r: Vec<G1> = Vec::new();
    r.push(g1_add_at(&old[0], &new[0]));
    r.push(g1_add_at(&old[1], &new[1]));
    r.push(g1_add_at(&old[2], &new[2]));
    proof {
        assert(g1_views(r@) =~= seq![ga(old@[0]@, new@[0]@), ga(old@[1]@, new@[1]@), ga(old@[2]@, new@[2]@)]);
    }
    r
}

/// Folds a prover's linear-layer lookup proof into an accumulated prover's
/// proof with `log_n` sumcheck rounds and the folding challenge `gamma`
/// (drawn by the caller from the transcript of the two proofs and their
/// error terms); `y1` is the commitment key's blinding base. The new
/// accumulator holds every element of the proof times `gamma` plus the
/// accumulated one (the second-group one the other way round), `mu +
/// gamma`, this step's error terms, and the accumulated error terms
/// extended by them.
pub fn cqlin_acc_prove(
    y1: &G1,
    log_n: usize,
    acc: (&Vec<G1>, &Vec<G2>, &Vec<Fe>),
    proof: (&Vec<G1>, &Vec<G2>, &Vec<Fe>),
    gamma: &Fe,
) -> (r: AccHolder<G1, G2>)
    requires
        cqlin_fold_accepts((proof.0@, proof.1@, proof.2@), (acc.0@, acc.1@, acc.2@), log_n as nat),
    ensures
        ({
            let (p, q, f) = (g1_views(proof.0@), g2_views(proof.1@), fe_views(proof.2@));
            let (a, aq, af) = (g1_views(acc.0@), g2_views(acc.1@), fe_views(acc.2@));
            let mu = af[af.len() - 1];
            let g = gamma@;
            let ln = log_n as int;
            let e = aq.len() - 3;
            let e1 = cqlin_err1_g1(p, f, a, af, mu, y1@, ln);
            let e5 = cqlin_open_err(p, f, a, af, mu, ln, 15, 6, 13);
            let e6 = cqlin_open_err(p, f, a, af, mu, ln, 2, 7, 14);
            &&& r.acc_g1@.len() == 20
            &&& forall|k: int| 0 <= k < 20 ==> (#[trigger] r.acc_g1@[k])@ == ga(gs(p[k], g), a[k])
            &&& g2_views(r.acc_g2@) == seq![g2_add(aq[0], g2_scale(q[0], g))]
            &&& r.acc_fr@.len() == log_n + 3
            &&& forall|k: int| 0 <= k < log_n + 3 ==> (#[trigger] r.acc_fr@[k])@ == fadd(fmul(f[k], g), af[k])
            &&& r.mu@ == fadd(mu, g)
            &&& r.errs@.len() == log_n + 3
            &&& g1_views(r.errs@[0].0@) == e1
            &&& g2_views(r.errs@[0].1@) == seq![aq[0], q[0]]
            &&& r.errs@[0].2@.len() == 0
            &&& g1_views(r.errs@[1].0@) == e5 && r.errs@[1].1@.len() == 0 && r.errs@[1].2@.len() == 0
            &&& g1_views(r.errs@[2].0@) == e6 && r.errs@[2].1@.len() == 0 && r.errs@[2].2@.len() == 0
            &&& forall|i: int|
                0 <= i < log_n ==> (#[trigger] r.errs@[3 + i]).0@.len() == 0 && r.errs@[3 + i].1@.len() == 0
                    && fe_views(r.errs@[3 + i].2@) == seq![cqlin_err8(f, af, mu, i)]
            &&& r.acc_errs@.len() == log_n + 3
            &&& g1_views(r.acc_errs@[0].0@) == folded_err(a.subrange(31, 34 + e), scaled(e1, g), e, 2)
            &&& g2_views(r.acc_errs@[0].1@) == aq.subrange(3, 3 + e) + seq![aq[0], q[0]]
            &&& r.acc_errs@[0].2@.len() == 0
            &&& g1_views(r.acc_errs@[1].0@) == seq![
                ga(a[34 + e], gs(e5[0], g)),
                ga(a[35 + e], gs(e5[1], g)),
                ga(a[36 + e], gs(e5[2], g)),
            ]
            &&& g1_views(r.acc_errs@[2].0@) == seq![
                ga(a[37 + e], gs(e6[0], g)),
                ga(a[38 + e], gs(e6[1], g)),
                ga(a[39 + e], gs(e6[2], g)),
            ]
            &&& forall|i: int|
                0 <= i < log_n ==> fe_views((#[trigger] r.acc_errs@[3 + i]).2@) == seq![
                    fadd(af[2 * ln + 3 + i], fmul(cqlin_err8(f, af, mu, i), g)),
                ]
        }),
{
    let h = acc_proof_to_cqlin_acc(acc, log_n, true);
    let mu = h.mu;
    let (p, f, a, af) = (proof.0, proof.2, acc.0, acc.2);
    let e1 = err1_g1(p, f, a, af, &mu, y1, log_n);
    let e5 = open_err(p, f, a, af, &mu, log_n, 15, 6, 13);
    let e6 = open_err(p, f, a, af, &mu, log_n, 2, 7, 14);
    let s1 = scale_g1s(&e1, gamma);
    let s5 = scale_g1s(&e5, gamma);
    let s6 = scale_g1s(&e6, gamma);
    let acc_g1 = fold_g1(p, a, gamma);
    let mut acc_g2: Vec<G2> = Vec::new();
    acc_g2.push(g2_add_at(&acc.1[0], &g2_scale_at(&proof.1[0], gamma)));
    let acc_fr = fold_fr(f, af, gamma);
    let new_mu = fe_add(&mu, gamma);
    let e = acc.1.len() - 3;
    proof {
        assert(g1_views(e1@).len() == 5 && g1_views(e5@).len() == 3 && g1_views(e6@).len() == 3);
        assert(g1_views(h.acc_errs@[0].0@).len() == e + 3);
        assert(g1_views(h.acc_errs@[0].0@) =~= g1_views(a@).subrange(31, 34 + e));
        assert(g1_views(s1@) =~= scaled(g1_views(e1@), gamma@));
    }
    let n0 = fold_err(&h.acc_errs[0].0, &s1, e, 2);
    let mut n0g2: Vec<G2> = Vec::new();
    let mut k: usize = 0;
    while k < e
        invariant
            e == acc.1@.len() - 3,
            acc.1@.len() >= 3,
            k <= e,
            h.acc_errs@.len() == 3 + log_n,
            h.acc_errs@[0].1@ == acc.1@.subrange(3, 3 + e),
            n0g2@.len() == k,
            g2_views(n0g2@) == g2_views(acc.1@).subrange(3, 3 + k),
        decreases e - k,
    {
        let ghost r0 = n0g2@;
        n0g2.push(h.acc_errs[0].1[k]);
        k = k + 1;
        proof {
            let want = g2_views(acc.1@).subrange(3, 3 + k);
            assert forall|m: int| 0 <= m < n0g2@.len() implies g2_views(n0g2@)[m] == want[m] by {
                if m < r0.len() {
                    assert(n0g2@[m] == r0[m]);
                    assert(g2_views(r0)[m] == r0[m]@);
                }
            }
            assert(g2_views(n0g2@) =~= want);
        }
    }
    n0g2.push(acc.1[0]);
    n0g2.push(proof.1[0]);
    let n1 = add3(&h.acc_errs[1].0, &s5);
    let n2 = add3(&h.acc_errs[2].0, &s6);
    let mut errs: Vec<ErrTerm<G1, G2>> = Vec::new();
    errs.push((e1, vec![acc.1[0], proof.1[0]], Vec::new()));
    errs.push((e5, Vec::new(), Vec::new()));
    errs.push((e6, Vec::new(), Vec::new()));
    let mut acc_errs: Vec<ErrTerm<G1, G2>> = Vec::new();
    acc_errs.push((n0, n0g2, Vec::new()));
    acc_errs.push((n1, Vec::new(), Vec::new()));
    acc_errs.push((n2, Vec::new(), Vec::new()));
    let ghost errs3 = errs@;
    let ghost acc3 = acc_errs@;
    let mut i: usize = 0;
    while i < log_n
        invariant
            cqlin_fold_accepts((proof.0@, proof.1@, proof.2@), (acc.0@, acc.1@, acc.2@), log_n as nat),
            f == proof.2,
            af == acc.2,
            mu == h.mu,
            mu@ == fe_views(acc.2@)[acc.2@.len() - 1],
            forall|i2: int| 0 <= i2 < log_n ==> fe_views((#[trigger] h.acc_errs@[3 + i2]).2@) == seq![fe_views(acc.2@)[2 * log_n + 3 + i2]],
            h.acc_errs@.len() == 3 + log_n,
            i <= log_n,
            errs@.len() == 3 + i,
            acc_errs@.len() == 3 + i,
            forall|k2: int| 0 <= k2 < 3 ==> #[trigger] errs@[k2] == errs3[k2],
            forall|k2: int| 0 <= k2 < 3 ==> #[trigger] acc_errs@[k2] == acc3[k2],
            forall|i2: int|
                0 <= i2 < i ==> (#[trigger] errs@[3 + i2]).0@.len() == 0 && errs@[3 + i2].1@.len() == 0 && fe_views(
                    errs@[3 + i2].2@,
                ) == seq![cqlin_err8(fe_views(proof.2@), fe_views(acc.2@), mu@, i2)],
            forall|i2: int|
                0 <= i2 < i ==> fe_views((#[trigger] acc_errs@[3 + i2]).2@) == seq![
                    fadd(fe_views(acc.2@)[2 * log_n + 3 + i2], fmul(cqlin_err8(fe_views(proof.2@), fe_views(acc.2@), mu@, i2), gamma@)),
                ],
        decreases log_n - i,
    {
        let two = fe_add(&fe_mul(&f[i], &af[i]), &fe_mul(&f[i], &af[i]));
        let v = fe_sub(&fe_sub(&two, &af[i + 1]), &fe_mul(&f[i + 1], &mu));
        let old = h.acc_errs[3 + i].2[0];
        let folded = fe_add(&old, &fe_mul(&v, gamma));
        let ghost e0 = errs@;
        let ghost a0 = acc_errs@;
        errs.push((Vec::new(), Vec::new(), vec![v]));
        acc_errs.push((Vec::new(), Vec::new(), vec![folded]));
        proof {
            assert(fe_views(h.acc_errs@[3 + i as int].2@) == seq![fe_views(acc.2@)[2 * log_n + 3 + i]]);
            assert(fe_views(h.acc_errs@[3 + i as int].2@)[0] == h.acc_errs@[3 + i as int].2@[0]@);
            assert(old@ == fe_views(acc.2@)[2 * log_n + 3 + i]);
            assert(fe_views(errs@[3 + i as int].2@) =~= seq![cqlin_err8(fe_views(proof.2@), fe_views(acc.2@), mu@, i as int)]);
            assert(fe_views(acc_errs@[3 + i as int].2@) =~= seq![
                fadd(fe_views(acc.2@)[2 * log_n + 3 + i], fmul(cqlin_err8(fe_views(proof.2@), fe_views(acc.2@), mu@, i as int), gamma@)),
            ]);
            assert forall|i2: int| 0 <= i2 < i implies #[trigger] errs@[3 + i2] == e0[3 + i2] && acc_errs@[3 + i2] == a0[3 + i2] by {}
        }
        i = i + 1;
    }
    AccHolder { acc_g1, acc_g2, acc_fr, mu: new_mu, errs, acc_errs }
}

} // verus!
