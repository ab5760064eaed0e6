//! What a folding step absorbs into its transcript before it draws the
//! folding challenge: the lists of points and values, in order, that the
//! caller serialises.
use super::concat_check::sub_vec;
use super::cq_fold::g2_views;
use crate::accumulator::ErrTerm;
use super::matmul::{MatMulAccFiatShamir, MatMulErrs};
use crate::curve::{g1_views, Gt, G1, G2};
use crate::field::{fe_views, Fe};
use vstd::prelude::*;

verus! {

/// One list the transcript absorbs.
#[derive(Debug)]
pub enum Absorbed {
    Points1(Vec<G1>),
    Points2(Vec<G2>),
    Values(Vec<Fe>),
    Targets(Vec<Gt>),
}

/// Whether an absorbed list is the given list of first-group points.
pub open spec fn is_points1(a: Absorbed, s: Seq<(nat, nat, nat)>) -> bool {
    a matches Absorbed::Points1(v) && g1_views(v@) == s
}

/// Whether an absorbed list is the given list of second-group points.
pub open spec fn is_points2(a: Absorbed, s: Seq<((nat, nat), (nat, nat), (nat, nat))>) -> bool {
    a matches Absorbed::Points2(v) && g2_views(v@) == s
}

/// Whether an absorbed list is the given list of values.
pub open spec fn is_values(a: Absorbed, s: Seq<nat>) -> bool {
    a matches Absorbed::Values(v) && fe_views(v@) == s
}

/// The error terms absorbed one after the other: for each, its first-group
/// points, its second-group points and its values.
pub open spec fn errs_absorbed(r: Seq<Absorbed>, start: int, errs: Seq<ErrTerm<G1, G2>>) -> bool {
    &&& r.len() == start + 3 * errs.len()
    &&& forall|k: int|
        0 <= k < errs.len() ==> is_points1(#[trigger] r[start + 3 * k], g1_views(errs[k].0@)) && is_points2(
            r[start + 3 * k + 1],
            g2_views(errs[k].1@),
        ) && is_values(r[start + 3 * k + 2], fe_views(errs[k].2@))
}

/// Appends the error terms.
fn absorb_errs(r: &mut Vec<Absorbed>, errs: &Vec<ErrTerm<G1, G2>>)
    ensures
        final(r)@.len() == old(r)@.len() + 3 * errs@.len(),
        final(r)@.subrange(0, old(r)@.len() as int) == old(r)@,
        errs_absorbed(final(r)@, old(r)@.len() as int, errs@),
{
    let ghost start = r@.len();
    let ghost before = r@;
    let mut k: usize = 0;
    while k < errs.len()
        invariant
            k <= errs@.len(),
            r@.len() == start + 3 * k,
            r@.subrange(0, start as int) == before,
            forall|j: int|
                0 <= j < k ==> is_points1(#[trigger] r@[start + 3 * j], g1_views(errs@[j].0@)) && is_points2(
                    r@[start + 3 * j + 1],
                    g2_views(errs@[j].1@),
                ) && is_values(r@[start + 3 * j + 2], fe_views(errs@[j].2@)),
        decreases errs@.len() - k,
    {
        let e = &errs[k];
        r.push(Absorbed::Points1(sub_vec(&e.0, 0, e.0.len())));
        r.push(Absorbed::Points2(sub_vec(&e.1, 0, e.1.len())));
        r.push(Absorbed::Values(sub_vec(&e.2, 0, e.2.len())));
        proof {
            assert(r@.subrange(0, start as int) =~= before);
            assert(e.0@.subrange(0, e.0@.len() as int) =~= e.0@);
            assert(e.1@.subrange(0, e.1@.len() as int) =~= e.1@);
            assert(e.2@.subrange(0, e.2@.len() as int) =~= e.2@);
        }
        k = k + 1;
    }
}

/// What a lookup folding step absorbs before its folding challenge, for
/// the prover's accumulated proof `acc` (of at least 20, 2 and 5 entries),
/// the proof (of 20, 2 and 5) and the step's error terms: the accumulated
/// points but the last eleven, the accumulated second-group points, the
/// first accumulated value, the proof's points but the last six, its
/// second-group points, its first value, and then each error term.
pub fn cq_fold_absorbed(
    acc: (&Vec<G1>, &Vec<G2>, &Vec<Fe>),
    proof: (&Vec<G1>, &Vec<G2>, &Vec<Fe>),
    errs: &Vec<ErrTerm<G1, G2>>,
) -> (r: Vec<Absorbed>)
    requires
        acc.0@.len() >= 20,
        acc.1@.len() >= 2,
        acc.2@.len() >= 5,
        proof.0@.len() == 20,
        proof.1@.len() == 2,
        proof.2@.len() == 5,
    ensures
        r@.len() == 6 + 3 * errs@.len(),
        is_points1(r@[0], g1_views(acc.0@).subrange(0, 9)),
        is_points2(r@[1], g2_views(acc.1@).subrange(0, 2)),
        is_values(r@[2], fe_views(acc.2@).subrange(0, 1)),
        is_points1(r@[3], g1_views(proof.0@).subrange(0, 14)),
        is_points2(r@[4], g2_views(proof.1@)),
        is_values(r@[5], fe_views(proof.2@).subrange(0, 1)),
        errs_absorbed(r@, 6, errs@),
{
    let a0 = sub_vec(acc.0, 0, 9);
    let a1 = sub_vec(acc.1, 0, 2);
    let a2 = sub_vec(acc.2, 0, 1);
    let p0 = sub_vec(proof.0, 0, 14);
    let p1 = sub_vec(proof.1, 0, 2);
    let p2 = sub_vec(proof.2, 0, 1);
    proof {
        assert(g1_views(a0@) =~= g1_views(acc.0@).subrange(0, 9));
        assert(g2_views(a1@) =~= g2_views(acc.1@).subrange(0, 2));
        assert(fe_views(a2@) =~= fe_views(acc.2@).subrange(0, 1));
        assert(g1_views(p0@) =~= g1_views(proof.0@).subrange(0, 14));
        assert(g2_views(p1@) =~= g2_views(proof.1@));
        assert(fe_views(p2@) =~= fe_views(proof.2@).subrange(0, 1));
    }
    let mut r: Vec<Absorbed> = Vec::new();
    r.push(Absorbed::Points1(a0));
    r.push(Absorbed::Points2(a1));
    r.push(Absorbed::Values(a2));
    r.push(Absorbed::Points1(p0));
    r.push(Absorbed::Points2(p1));
    r.push(Absorbed::Values(p2));
    let ghost head = r@;
    absorb_errs(&mut r, errs);
    proof {
        assert(r@.subrange(0, 6) == head);
        assert(r@[0] == head[0] && r@[1] == head[1] && r@[2] == head[2]);
        assert(r@[3] == head[3] && r@[4] == head[4] && r@[5] == head[5]);
    }
    r
}

/// What a linear-layer lookup folding step absorbs before its folding
/// challenge, for the prover's accumulated proof `acc` (of at least 20, 1
/// and `log n + 3` entries), the proof (of 20, 1 and `log n + 3`) and the
/// step's error terms: the accumulated points but the last eleven, the
/// accumulated points 15 and 16, the accumulated second-group points, the
/// accumulated values but the last two, the proof's points but the last
/// five, its second-group points, its values but the last two, and then
/// each error term.
pub fn cqlin_fold_absorbed(
    log_n: usize,
    acc: (&Vec<G1>, &Vec<G2>, &Vec<Fe>),
    proof: (&Vec<G1>, &Vec<G2>, &Vec<Fe>),
    errs: &Vec<ErrTerm<G1, G2>>,
) -> (r: Vec<Absorbed>)
    requires
        log_n <= 64,
        acc.0@.len() >= 20,
        acc.1@.len() >= 1,
        acc.2@.len() >= log_n + 3,
        proof.0@.len() == 20,
        proof.1@.len() == 1,
        proof.2@.len() == log_n + 3,
    ensures
        r@.len() == 7 + 3 * errs@.len(),
        is_points1(r@[0], g1_views(acc.0@).subrange(0, 9)),
        is_points1(r@[1], g1_views(acc.0@).subrange(15, 17)),
        is_points2(r@[2], g2_views(acc.1@).subrange(0, 1)),
        is_values(r@[3], fe_views(acc.2@).subrange(0, log_n + 1)),
        is_points1(r@[4], g1_views(proof.0@).subrange(0, 15)),
        is_points2(r@[5], g2_views(proof.1@)),
        is_values(r@[6], fe_views(proof.2@).subrange(0, log_n + 1)),
        errs_absorbed(r@, 7, errs@),
{
    let a0 = sub_vec(acc.0, 0, 9);
    let a1 = sub_vec(acc.0, 15, 17);
    let a2 = sub_vec(acc.1, 0, 1);
    let a3 = sub_vec(acc.2, 0, log_n + 1);
    let p0 = sub_vec(proof.0, 0, 15);
    let p1 = sub_vec(proof.1, 0, 1);
    let p2 = sub_vec(proof.2, 0, log_n + 1);
    proof {
        assert(g1_views(a0@) =~= g1_views(acc.0@).subrange(0, 9));
        assert(g1_views(a1@) =~= g1_views(acc.0@).subrange(15, 17));
        assert(g2_views(a2@) =~= g2_views(acc.1@).subrange(0, 1));
        assert(fe_views(a3@) =~= fe_views(acc.2@).subrange(0, log_n + 1));
        assert(g1_views(p0@) =~= g1_views(proof.0@).subrange(0, 15));
        assert(g2_views(p1@) =~= g2_views(proof.1@));
        assert(fe_views(p2@) =~= fe_views(proof.2@).subrange(0, log_n + 1));
    }
    let mut r: Vec<Absorbed> = Vec::new();
    r.push(Absorbed::Points1(a0));
    r.push(Absorbed::Points1(a1));
    r.push(Absorbed::Points2(a2));
    r.push(Absorbed::Values(a3));
    r.push(Absorbed::Points1(p0));
    r.push(Absorbed::Points2(p1));
    r.push(Absorbed::Values(p2));
    let ghost head = r@;
    absorb_errs(&mut r, errs);
    proof {
        assert(r@.subrange(0, 7) == head);
        assert(r@[0] == head[0] && r@[1] == head[1] && r@[2] == head[2] && r@[3] == head[3]);
        assert(r@[4] == head[4] && r@[5] == head[5] && r@[6] == head[6]);
    }
    r
}

/// The first-group challenge elements of an accumulated product proof, in
/// the order they are declared (and serialised).
pub open spec fn fs_points1(f: MatMulAccFiatShamir<G1, G2>) -> Seq<(nat, nat, nat)> {
    seq![
        f.acc_left_x@,
        f.acc_left_Q_x@,
        f.acc_left_zero@,
        f.acc_left_zero_div@,
        f.acc_right_x@,
        f.acc_right_Q_x@,
        f.acc_right_zero_div@,
        f.acc_flat_A@,
        f.acc_flat_B@,
        f.acc_flat_C@,
    ]
}

fn fs_points1_exec(f: &MatMulAccFiatShamir<G1, G2>) -> (r: Vec<G1>)
    ensures
        g1_views(r@) == fs_points1(*f),
{
    let r = vec![
        f.acc_left_x,
        f.acc_left_Q_x,
        f.acc_left_zero,
        f.acc_left_zero_div,
        f.acc_right_x,
        f.acc_right_Q_x,
        f.acc_right_zero_div,
        f.acc_flat_A,
        f.acc_flat_B,
        f.acc_flat_C,
    ];
    proof {
        assert(g1_views(r@) =~= fs_points1(*f));
    }
    r
}

/// What a product folding step absorbs before its folding challenge: the
/// challenge elements of the accumulated proof `f1` and of the new one `f2`
/// (first-group elements, then the two second-group ones), then the step's
/// error terms (three first-group elements, then the target-group one).
pub fn matmul_fold_absorbed(
    f1: &MatMulAccFiatShamir<G1, G2>,
    f2: &MatMulAccFiatShamir<G1, G2>,
    errs: &MatMulErrs<G1, Gt>,
) -> (r: Vec<Absorbed>)
    ensures
        r@.len() == 6,
        is_points1(r@[0], fs_points1(*f1)),
        is_points2(r@[1], seq![f1.acc_flat_B_g2@, f1.acc_beta_pow_g2@]),
        is_points1(r@[2], fs_points1(*f2)),
        is_points2(r@[3], seq![f2.acc_flat_B_g2@, f2.acc_beta_pow_g2@]),
        is_points1(r@[4], seq![errs.acc_left_Q_x@, errs.acc_left_x@, errs.acc_part_corr1@]),
        r@[5] matches Absorbed::Targets(v) && v@.len() == 1 && v@[0]@ == errs.acc_gt@,
{
    let q1 = vec![f1.acc_flat_B_g2, f1.acc_beta_pow_g2];
    let q2 = vec![f2.acc_flat_B_g2, f2.acc_beta_pow_g2];
    let e = vec![errs.acc_left_Q_x, errs.acc_left_x, errs.acc_part_corr1];
    proof {
        assert(g2_views(q1@) =~= seq![f1.acc_flat_B_g2@, f1.acc_beta_pow_g2@]);
        assert(g2_views(q2@) =~= seq![f2.acc_flat_B_g2@, f2.acc_beta_pow_g2@]);
        assert(g1_views(e@) =~= seq![errs.acc_left_Q_x@, errs.acc_left_x@, errs.acc_part_corr1@]);
    }
    vec![
        Absorbed::Points1(fs_points1_exec(f1)),
        Absorbed::Points2(q1),
        Absorbed::Points1(fs_points1_exec(f2)),
        Absorbed::Points2(q2),
        Absorbed::Points1(e),
        Absorbed::Targets(vec![errs.acc_gt]),
    ]
}

} // verus!
