//! The layout of accumulated proofs used when folding proofs of several
//! instances of one basic block. A flat proof (group elements of both source
//! groups and field elements) is cut into the accumulated values, the error
//! terms of the current step and the accumulated error terms.
use crate::curve::{g1_add, g1_add_at, g1_scale, g1_scale_at, g2_add, g2_add_at, g2_scale, g2_scale_at, G1, G2};
use crate::field::{fadd, fe_add, fe_mul, fmul, Fe};
use vstd::prelude::*;

verus! {

/// One error term: elements of the first group, of the second group, and of
/// the scalar field.
pub type ErrTerm<P, Q> = (Vec<P>, Vec<Q>, Vec<Fe>);

/// An accumulated proof, cut into its parts.
pub struct AccHolder<P, Q> {
    pub acc_g1: Vec<P>,
    pub acc_g2: Vec<Q>,
    pub acc_fr: Vec<Fe>,
    pub mu: Fe,
    pub errs: Vec<ErrTerm<P, Q>>,
    pub acc_errs: Vec<ErrTerm<P, Q>>,
}

/// The elements of `v` from `start` up to (not including) `end`.
pub fn copy_range<T: Copy>(v: &Vec<T>, start: usize, end: usize) -> (r: Vec<T>)
    requires
        start <= end <= v.len(),
    ensures
        r@ == v@.subrange(start as int, end as int),
{
    let mut r: Vec<T> = Vec::new();
    let mut i = start;
    while i < end
        invariant
            start <= i <= end <= v.len(),
            r@ == v@.subrange(start as int, i as int),
        decreases end - i,
    {
        r.push(v[i]);
        i = i + 1;
    }
    r
}

/// The holder of an empty proof.
pub fn empty_acc_holder<P, Q>() -> (r: AccHolder<P, Q>)
    ensures
        r.acc_g1@.len() == 0,
        r.acc_g2@.len() == 0,
        r.acc_fr@.len() == 0,
        r.mu@ == 0,
        r.errs@.len() == 0,
        r.acc_errs@.len() == 0,
{
    AccHolder {
        acc_g1: Vec::new(),
        acc_g2: Vec::new(),
        acc_fr: Vec::new(),
        mu: Fe::zero(),
        errs: Vec::new(),
        acc_errs: Vec::new(),
    }
}

/// Whether a proof has no elements at all.
pub open spec fn is_empty_proof<P, Q>(p: Seq<P>, q: Seq<Q>, f: Seq<Fe>) -> bool {
    p.len() == 0 && q.len() == 0 && f.len() == 0
}

/// Whether an error term holds exactly the given sequences.
pub open spec fn err_is<P, Q>(e: ErrTerm<P, Q>, p: Seq<P>, q: Seq<Q>, f: Seq<Fe>) -> bool {
    e.0@ == p && e.1@ == q && e.2@ == f
}

/// Number of accumulated first-group elements of a lookup proof.
pub open spec fn cq_g1_num(is_prover: bool) -> int {
    if is_prover {
        20
    } else {
        14
    }
}

/// Number of accumulated field elements of a lookup proof.
pub open spec fn cq_fr_num(is_prover: bool) -> int {
    if is_prover {
        5
    } else {
        1
    }
}

/// A lookup proof is long enough to be cut.
pub open spec fn cq_acc_proof_fits<P, Q>(p: Seq<P>, q: Seq<Q>, f: Seq<Fe>, is_prover: bool) -> bool {
    is_empty_proof(p, q, f) || (p.len() >= cq_g1_num(is_prover) + 24 && q.len() >= 10 && f.len()
        > cq_fr_num(is_prover))
}

/// Cuts an accumulated lookup proof: the accumulated values come first, then
/// the error terms of the current step, then the accumulated error terms, and
/// the folding challenge is the last field element.
pub fn acc_proof_to_cq_acc<P: Copy, Q: Copy>(acc_proof: (&Vec<P>, &Vec<Q>, &Vec<Fe>), is_prover: bool) -> (r: AccHolder<P, Q>)
    requires
        cq_acc_proof_fits(acc_proof.0@, acc_proof.1@, acc_proof.2@, is_prover),
    ensures
        is_empty_proof(acc_proof.0@, acc_proof.1@, acc_proof.2@) ==> {
            &&& r.acc_g1@.len() == 0 && r.acc_g2@.len() == 0 && r.acc_fr@.len() == 0
            &&& r.mu@ == 0 && r.errs@.len() == 0 && r.acc_errs@.len() == 0
        },
        !is_empty_proof(acc_proof.0@, acc_proof.1@, acc_proof.2@) ==> {
            let (p, q, f) = (acc_proof.0@, acc_proof.1@, acc_proof.2@);
            let g = cq_g1_num(is_prover);
            let n = cq_fr_num(is_prover);
            &&& r.acc_g1@ == p.subrange(0, g)
            &&& r.acc_g2@ == q.subrange(0, 2)
            &&& r.acc_fr@ == f.subrange(0, n)
            &&& r.mu == f[f.len() - 1]
            &&& r.errs@.len() == 2
            &&& err_is(r.errs@[0], p.subrange(g, g + 7), q.subrange(2, 4), seq![])
            &&& err_is(r.errs@[1], p.subrange(g + 7, g + 12), q.subrange(4, 6), seq![f[n]])
            &&& r.acc_errs@.len() == 2
            &&& err_is(r.acc_errs@[0], p.subrange(g + 12, g + 19), q.subrange(6, 8), seq![])
            &&& err_is(
                r.acc_errs@[1],
                p.subrange(g + 19, g + 24),
                q.subrange(8, 10),
                seq![f[f.len() - 2]],
            )
        },
{
    if acc_proof.0.len() == 0 && acc_proof.1.len() == 0 && acc_proof.2.len() == 0 {
        return empty_acc_holder();
    }
    let acc_g1_num: usize = if is_prover {
        20
    } else {
        14
    };
    let acc_g2_num: usize = 2;
    let acc_fr_num: usize = if is_prover {
        5
    } else {
        1
    };
    let err1: ErrTerm<P, Q> = (
        copy_range(acc_proof.0, acc_g1_num, acc_g1_num + 7),
        copy_range(acc_proof.1, 2, 4),
        Vec::new(),
    );
    let mut err4_fr: Vec<Fe> = Vec::new();
    err4_fr.push(acc_proof.2[acc_fr_num]);
    let err4: ErrTerm<P, Q> = (
        copy_range(acc_proof.0, acc_g1_num + 7, acc_g1_num + 12),
        copy_range(acc_proof.1, 4, 6),
        err4_fr,
    );
    let mut errs: Vec<ErrTerm<P, Q>> = Vec::new();
    errs.push(err1);
    errs.push(err4);

    let acc_err_offset = acc_g1_num + 12;
    let acc_g2_offset: usize = 6;
    let acc_err1: ErrTerm<P, Q> = (
        copy_range(acc_proof.0, acc_err_offset, acc_err_offset + 7),
        copy_range(acc_proof.1, acc_g2_offset, acc_g2_offset + 2),
        Vec::new(),
    );
    let mut acc_err4_fr: Vec<Fe> = Vec::new();
    acc_err4_fr.push(acc_proof.2[acc_proof.2.len() - 2]);
    let acc_err4: ErrTerm<P, Q> = (
        copy_range(acc_proof.0, acc_err_offset + 7, acc_err_offset + 12),
        copy_range(acc_proof.1, acc_g2_offset + 2, acc_g2_offset + 4),
        acc_err4_fr,
    );
    let mut acc_errs: Vec<ErrTerm<P, Q>> = Vec::new();
    acc_errs.push(acc_err1);
    acc_errs.push(acc_err4);
    let r = AccHolder {
        acc_g1: copy_range(acc_proof.0, 0, acc_g1_num),
        acc_g2: copy_range(acc_proof.1, 0, acc_g2_num),
        acc_fr: copy_range(acc_proof.2, 0, acc_fr_num),
        mu: acc_proof.2[acc_proof.2.len() - 1],
        errs,
        acc_errs,
    };
    proof {
        assert(r.errs@[1].2@ =~= seq![acc_proof.2@[acc_fr_num as int]]);
        assert(r.acc_errs@[1].2@ =~= seq![acc_proof.2@[acc_proof.2@.len() - 2]]);
        assert(r.errs@[0].2@ =~= Seq::<Fe>::empty());
        assert(r.acc_errs@[0].2@ =~= Seq::<Fe>::empty());
    }
    r
}

/// Appends the error terms that each hold the single field element
/// `f[start + i]`, for `i` below `count`.
fn push_fr_terms<P, Q>(terms: &mut Vec<ErrTerm<P, Q>>, f: &Vec<Fe>, start: usize, count: usize)
    requires
        start + count <= f.len(),
    ensures
        final(terms)@.len() == old(terms)@.len() + count,
        forall|i: int| 0 <= i < old(terms)@.len() ==> final(terms)@[i] == old(terms)@[i],
        forall|i: int|
            0 <= i < count ==> err_is(
                #[trigger] final(terms)@[old(terms)@.len() + i],
                seq![],
                seq![],
                seq![f@[start + i]],
            ),
{
    let ghost n0 = terms@.len();
    let mut i: usize = 0;
    while i < count
        invariant
            start + count <= f.len(),
            0 <= i <= count,
            terms@.len() == n0 + i,
            n0 == old(terms)@.len(),
            forall|k: int| 0 <= k < n0 ==> terms@[k] == old(terms)@[k],
            forall|k: int|
                0 <= k < i ==> err_is(#[trigger] terms@[n0 + k], seq![], seq![], seq![f@[start + k]]),
        decreases count - i,
    {
        let mut fr: Vec<Fe> = Vec::new();
        fr.push(f[start + i]);
        let t: ErrTerm<P, Q> = (Vec::new(), Vec::new(), fr);
        proof {
            assert(t.2@ =~= seq![f@[start + i]]);
            assert(t.0@ =~= Seq::<P>::empty());
            assert(t.1@ =~= Seq::<Q>::empty());
        }
        terms.push(t);
        i = i + 1;
    }
}

/// Number of accumulated first-group elements of a linear-layer lookup proof.
pub open spec fn cqlin_g1_num(is_prover: bool) -> int {
    if is_prover {
        20
    } else {
        17
    }
}

/// Number of accumulated field elements of a linear-layer lookup proof.
pub open spec fn cqlin_fr_num(log_n: int, is_prover: bool) -> int {
    if is_prover {
        log_n + 3
    } else {
        log_n + 1
    }
}

/// A linear-layer lookup proof is long enough to be cut.
pub open spec fn cqlin_acc_proof_fits<P, Q>(p: Seq<P>, q: Seq<Q>, f: Seq<Fe>, log_n: int, is_prover: bool) -> bool {
    is_empty_proof(p, q, f) || (q.len() >= 3 && p.len() >= cqlin_g1_num(is_prover) + 20 + (q.len()
        - 3) && f.len() >= cqlin_fr_num(log_n, is_prover) + 2 * log_n)
}

/// Cuts an accumulated linear-layer lookup proof. Besides three error terms of
/// group elements, each of the `log_n` sumcheck rounds has an error term of one
/// field element; the second group has one accumulated element and the
/// remaining ones after the current step's two belong to the accumulated
/// error term.
pub fn acc_proof_to_cqlin_acc<P: Copy, Q: Copy>(
    acc_proof: (&Vec<P>, &Vec<Q>, &Vec<Fe>),
    log_n: usize,
    is_prover: bool,
) -> (r: AccHolder<P, Q>)
    requires
        cqlin_acc_proof_fits(acc_proof.0@, acc_proof.1@, acc_proof.2@, log_n as int, is_prover),
    ensures
        is_empty_proof(acc_proof.0@, acc_proof.1@, acc_proof.2@) ==> {
            &&& r.acc_g1@.len() == 0 && r.acc_g2@.len() == 0 && r.acc_fr@.len() == 0
            &&& r.mu@ == 0 && r.errs@.len() == 0 && r.acc_errs@.len() == 0
        },
        !is_empty_proof(acc_proof.0@, acc_proof.1@, acc_proof.2@) ==> {
            let (p, q, f) = (acc_proof.0@, acc_proof.1@, acc_proof.2@);
            let g = cqlin_g1_num(is_prover);
            let n = cqlin_fr_num(log_n as int, is_prover);
            let e = q.len() - 3;
            &&& r.acc_g1@ == p.subrange(0, g)
            &&& r.acc_g2@ == q.subrange(0, 1)
            &&& r.acc_fr@ == f.subrange(0, n)
            &&& r.mu == f[f.len() - 1]
            &&& r.errs@.len() == 3 + log_n
            &&& err_is(r.errs@[0], p.subrange(g, g + 5), q.subrange(1, 3), seq![])
            &&& err_is(r.errs@[1], p.subrange(g + 5, g + 8), seq![], seq![])
            &&& err_is(r.errs@[2], p.subrange(g + 8, g + 11), seq![], seq![])
            &&& forall|i: int|
                0 <= i < log_n ==> err_is(#[trigger] r.errs@[3 + i], seq![], seq![], seq![f[n + i]])
            &&& r.acc_errs@.len() == 3 + log_n
            &&& err_is(r.acc_errs@[0], p.subrange(g + 11, g + 14 + e), q.subrange(3, 3 + e), seq![])
            &&& err_is(r.acc_errs@[1], p.subrange(g + 14 + e, g + 17 + e), seq![], seq![])
            &&& err_is(r.acc_errs@[2], p.subrange(g + 17 + e, g + 20 + e), seq![], seq![])
            &&& forall|i: int|
                0 <= i < log_n ==> err_is(
                    #[trigger] r.acc_errs@[3 + i],
                    seq![],
                    seq![],
                    seq![f[n + log_n + i]],
                )
        },
{
    if acc_proof.0.len() == 0 && acc_proof.1.len() == 0 && acc_proof.2.len() == 0 {
        return empty_acc_holder();
    }
    let f_len = acc_proof.2.len();
    assert(f_len >= cqlin_fr_num(log_n as int, is_prover) + 2 * log_n);
    let acc_g1_num: usize = if is_prover {
        20
    } else {
        17
    };
    let acc_fr_num: usize = if is_prover {
        log_n + 3
    } else {
        log_n + 1
    };
    let acc_err_g2_num = acc_proof.1.len() - 3;

    let err1: ErrTerm<P, Q> = (
        copy_range(acc_proof.0, acc_g1_num, acc_g1_num + 5),
        copy_range(acc_proof.1, 1, 3),
        Vec::new(),
    );
    let err5: ErrTerm<P, Q> = (copy_range(acc_proof.0, acc_g1_num + 5, acc_g1_num + 8), Vec::new(), Vec::new());
    let err6: ErrTerm<P, Q> = (copy_range(acc_proof.0, acc_g1_num + 8, acc_g1_num + 11), Vec::new(), Vec::new());
    let mut errs: Vec<ErrTerm<P, Q>> = Vec::new();
    errs.push(err1);
    errs.push(err5);
    errs.push(err6);
    push_fr_terms(&mut errs, acc_proof.2, acc_fr_num, log_n);

    let acc_err1: ErrTerm<P, Q> = (
        copy_range(acc_proof.0, acc_g1_num + 11, acc_g1_num + 14 + acc_err_g2_num),
        copy_range(acc_proof.1, 3, 3 + acc_err_g2_num),
        Vec::new(),
    );
    let acc_err5: ErrTerm<P, Q> = (
        copy_range(acc_proof.0, acc_g1_num + 14 + acc_err_g2_num, acc_g1_num + 17 + acc_err_g2_num),
        Vec::new(),
        Vec::new(),
    );
    let acc_err6: ErrTerm<P, Q> = (
        copy_range(acc_proof.0, acc_g1_num + 17 + acc_err_g2_num, acc_g1_num + 20 + acc_err_g2_num),
        Vec::new(),
        Vec::new(),
    );
    let mut acc_errs: Vec<ErrTerm<P, Q>> = Vec::new();
    acc_errs.push(acc_err1);
    acc_errs.push(acc_err5);
    acc_errs.push(acc_err6);
    push_fr_terms(&mut acc_errs, acc_proof.2, acc_fr_num + log_n, log_n);

    let r = AccHolder {
        acc_g1: copy_range(acc_proof.0, 0, acc_g1_num),
        acc_g2: copy_range(acc_proof.1, 0, 1),
        acc_fr: copy_range(acc_proof.2, 0, acc_fr_num),
        mu: acc_proof.2[acc_proof.2.len() - 1],
        errs,
        acc_errs,
    };
    proof {
        assert(r.errs@[0].2@ =~= Seq::<Fe>::empty());
        assert(r.errs@[1].1@ =~= Seq::<Q>::empty());
        assert(r.errs@[1].2@ =~= Seq::<Fe>::empty());
        assert(r.errs@[2].1@ =~= Seq::<Q>::empty());
        assert(r.errs@[2].2@ =~= Seq::<Fe>::empty());
        assert(r.acc_errs@[0].2@ =~= Seq::<Fe>::empty());
        assert(r.acc_errs@[1].1@ =~= Seq::<Q>::empty());
        assert(r.acc_errs@[1].2@ =~= Seq::<Fe>::empty());
        assert(r.acc_errs@[2].1@ =~= Seq::<Q>::empty());
        assert(r.acc_errs@[2].2@ =~= Seq::<Fe>::empty());
    }
    r
}

/// Cuts an accumulated proof of a product with a scalar: the accumulated
/// first-group values are the blinding term, the two inputs and the output
/// (with, for the prover, the unblinded parts), followed by one error term
/// and one accumulated error term.
pub fn acc_proof_to_mul_scalar_acc<P: Copy, Q: Copy>(acc_proof: (&Vec<P>, &Vec<Q>, &Vec<Fe>), is_prover: bool) -> (r: AccHolder<P, Q>)
    requires
        mul_acc_proof_fits(acc_proof.0@, acc_proof.1@, acc_proof.2@, mul_scalar_g1_num(is_prover), mul_fr_num(is_prover), 6),
    ensures
        is_empty_proof(acc_proof.0@, acc_proof.1@, acc_proof.2@) ==> {
            &&& r.acc_g1@.len() == 0 && r.acc_g2@.len() == 0 && r.acc_fr@.len() == 0
            &&& r.mu@ == 0 && r.errs@.len() == 0 && r.acc_errs@.len() == 0
        },
        !is_empty_proof(acc_proof.0@, acc_proof.1@, acc_proof.2@) ==> mul_acc_holder_is(
            r,
            acc_proof.0@,
            acc_proof.1@,
            acc_proof.2@,
            mul_scalar_g1_num(is_prover),
            mul_fr_num(is_prover),
            4,
            6,
        ),
{
    let acc_g1_num: usize = if is_prover {
        7
    } else {
        4
    };
    cut_mul_acc_proof(acc_proof, acc_g1_num, if is_prover {
        2
    } else {
        0
    }, 4, 6)
}

/// Cuts an accumulated proof of an elementwise product: like the product with
/// a scalar, with the quotient commitment in front and two more elements in
/// each error term.
pub fn acc_proof_to_mul_acc<P: Copy, Q: Copy>(acc_proof: (&Vec<P>, &Vec<Q>, &Vec<Fe>), is_prover: bool) -> (r: AccHolder<P, Q>)
    requires
        mul_acc_proof_fits(acc_proof.0@, acc_proof.1@, acc_proof.2@, mul_g1_num(is_prover), mul_fr_num(is_prover), 8),
    ensures
        is_empty_proof(acc_proof.0@, acc_proof.1@, acc_proof.2@) ==> {
            &&& r.acc_g1@.len() == 0 && r.acc_g2@.len() == 0 && r.acc_fr@.len() == 0
            &&& r.mu@ == 0 && r.errs@.len() == 0 && r.acc_errs@.len() == 0
        },
        !is_empty_proof(acc_proof.0@, acc_proof.1@, acc_proof.2@) ==> mul_acc_holder_is(
            r,
            acc_proof.0@,
            acc_proof.1@,
            acc_proof.2@,
            mul_g1_num(is_prover),
            mul_fr_num(is_prover),
            5,
            8,
        ),
{
    let acc_g1_num: usize = if is_prover {
        8
    } else {
        5
    };
    cut_mul_acc_proof(acc_proof, acc_g1_num, if is_prover {
        2
    } else {
        0
    }, 5, 8)
}

/// Number of accumulated first-group elements of a product-with-scalar proof.
pub open spec fn mul_scalar_g1_num(is_prover: bool) -> int {
    if is_prover {
        7
    } else {
        4
    }
}

/// Number of accumulated first-group elements of an elementwise product proof.
pub open spec fn mul_g1_num(is_prover: bool) -> int {
    if is_prover {
        8
    } else {
        5
    }
}

/// Number of accumulated field elements of a product proof.
pub open spec fn mul_fr_num(is_prover: bool) -> int {
    if is_prover {
        2
    } else {
        0
    }
}

/// A product proof is long enough to be cut, where `g` first-group and `n`
/// field elements are accumulated values and the accumulated error term ends
/// `e2` plus the extra second-group count after them.
pub open spec fn mul_acc_proof_fits<P, Q>(p: Seq<P>, q: Seq<Q>, f: Seq<Fe>, g: int, n: int, e2: int) -> bool {
    is_empty_proof(p, q, f) || (q.len() >= 3 && p.len() >= g + e2 + (q.len() - 3) && f.len()
        >= 1 && f.len() >= n)
}

/// The holder cut from a product proof.
pub open spec fn mul_acc_holder_is<P, Q>(
    r: AccHolder<P, Q>,
    p: Seq<P>,
    q: Seq<Q>,
    f: Seq<Fe>,
    g: int,
    n: int,
    e1: int,
    e2: int,
) -> bool {
    let e = q.len() - 3;
    &&& r.acc_g1@ == p.subrange(0, g)
    &&& r.acc_g2@ == q.subrange(0, 1)
    &&& r.acc_fr@ == f.subrange(0, n)
    &&& r.mu == f[f.len() - 1]
    &&& r.errs@.len() == 1
    &&& err_is(r.errs@[0], p.subrange(g, g + e1), q.subrange(1, 3), seq![])
    &&& r.acc_errs@.len() == 1
    &&& err_is(r.acc_errs@[0], p.subrange(g + e1, g + e2 + e), q.subrange(3, 3 + e), seq![])
}

fn cut_mul_acc_proof<P: Copy, Q: Copy>(
    acc_proof: (&Vec<P>, &Vec<Q>, &Vec<Fe>),
    acc_g1_num: usize,
    acc_fr_num: usize,
    e1: usize,
    e2: usize,
) -> (r: AccHolder<P, Q>)
    requires
        e1 <= e2,
        acc_fr_num <= 2,
        mul_acc_proof_fits(acc_proof.0@, acc_proof.1@, acc_proof.2@, acc_g1_num as int, acc_fr_num as int, e2 as int),
    ensures
        is_empty_proof(acc_proof.0@, acc_proof.1@, acc_proof.2@) ==> {
            &&& r.acc_g1@.len() == 0 && r.acc_g2@.len() == 0 && r.acc_fr@.len() == 0
            &&& r.mu@ == 0 && r.errs@.len() == 0 && r.acc_errs@.len() == 0
        },
        !is_empty_proof(acc_proof.0@, acc_proof.1@, acc_proof.2@) ==> mul_acc_holder_is(
            r,
            acc_proof.0@,
            acc_proof.1@,
            acc_proof.2@,
            acc_g1_num as int,
            acc_fr_num as int,
            e1 as int,
            e2 as int,
        ),
{
    if acc_proof.0.len() == 0 && acc_proof.1.len() == 0 && acc_proof.2.len() == 0 {
        return empty_acc_holder();
    }
    let acc_err_g2_num = acc_proof.1.len() - 3;
    let err1: ErrTerm<P, Q> = (
        copy_range(acc_proof.0, acc_g1_num, acc_g1_num + e1),
        copy_range(acc_proof.1, 1, 3),
        Vec::new(),
    );
    let mut errs: Vec<ErrTerm<P, Q>> = Vec::new();
    errs.push(err1);
    let acc_err1: ErrTerm<P, Q> = (
        copy_range(acc_proof.0, acc_g1_num + e1, acc_g1_num + e2 + acc_err_g2_num),
        copy_range(acc_proof.1, 3, 3 + acc_err_g2_num),
        Vec::new(),
    );
    let mut acc_errs: Vec<ErrTerm<P, Q>> = Vec::new();
    acc_errs.push(acc_err1);
    let r = AccHolder {
        acc_g1: copy_range(acc_proof.0, 0, acc_g1_num),
        acc_g2: copy_range(acc_proof.1, 0, 1),
        acc_fr: copy_range(acc_proof.2, 0, acc_fr_num),
        mu: acc_proof.2[acc_proof.2.len() - 1],
        errs,
        acc_errs,
    };
    proof {
        assert(r.errs@[0].2@ =~= Seq::<Fe>::empty());
        assert(r.acc_errs@[0].2@ =~= Seq::<Fe>::empty());
    }
    r
}

/// The length of a zip of two sequences.
pub open spec fn zip_len(a: nat, b: nat) -> nat {
    if a <= b {
        a
    } else {
        b
    }
}

/// Folds points of the first group: `p[k] * gamma + a[k]`, for as many
/// places as both have.
pub fn fold_g1(p: &Vec<G1>, a: &Vec<G1>, gamma: &Fe) -> (r: Vec<G1>)
    ensures
        r@.len() == zip_len(p@.len(), a@.len()),
        forall|k: int| 0 <= k < r@.len() ==> (#[trigger] r@[k])@ == g1_add(g1_scale(p@[k]@, gamma@), a@[k]@),
{
    let n = if p.len() <= a.len() {
        p.len()
    } else {
        a.len()
    };
    let mut r: Vec<G1> = Vec::new();
    let mut k: usize = 0;
    while k < n
        invariant
            n == zip_len(p@.len(), a@.len()),
            k <= n,
            r@.len() == k,
            forall|k2: int| 0 <= k2 < k ==> (#[trigger] r@[k2])@ == g1_add(g1_scale(p@[k2]@, gamma@), a@[k2]@),
        decreases n - k,
    {
        let t = g1_scale_at(&p[k], gamma);
        r.push(g1_add_at(&t, &a[k]));
        k = k + 1;
    }
    r
}

/// Folds points of the second group: `p[k] * gamma + a[k]`, for as many
/// places as both have.
pub fn fold_g2(p: &Vec<G2>, a: &Vec<G2>, gamma: &Fe) -> (r: Vec<G2>)
    ensures
        r@.len() == zip_len(p@.len(), a@.len()),
        forall|k: int| 0 <= k < r@.len() ==> (#[trigger] r@[k])@ == g2_add(g2_scale(p@[k]@, gamma@), a@[k]@),
{
    let n = if p.len() <= a.len() {
        p.len()
    } else {
        a.len()
    };
    let mut r: Vec<G2> = Vec::new();
    let mut k: usize = 0;
    while k < n
        invariant
            n == zip_len(p@.len(), a@.len()),
            k <= n,
            r@.len() == k,
            forall|k2: int| 0 <= k2 < k ==> (#[trigger] r@[k2])@ == g2_add(g2_scale(p@[k2]@, gamma@), a@[k2]@),
        decreases n - k,
    {
        let t = g2_scale_at(&p[k], gamma);
        r.push(g2_add_at(&t, &a[k]));
        k = k + 1;
    }
    r
}

/// Folds field elements: `p[k] * gamma + a[k]`, for as many places as both
/// have.
pub fn fold_fr(p: &Vec<Fe>, a: &Vec<Fe>, gamma: &Fe) -> (r: Vec<Fe>)
    ensures
        r@.len() == zip_len(p@.len(), a@.len()),
        forall|k: int| 0 <= k < r@.len() ==> (#[trigger] r@[k])@ == fadd(fmul(p@[k]@, gamma@), a@[k]@),
{
    let n = if p.len() <= a.len() {
        p.len()
    } else {
        a.len()
    };
    let mut r: Vec<Fe> = Vec::new();
    let mut k: usize = 0;
    while k < n
        invariant
            n == zip_len(p@.len(), a@.len()),
            k <= n,
            r@.len() == k,
            forall|k2: int| 0 <= k2 < k ==> (#[trigger] r@[k2])@ == fadd(fmul(p@[k2]@, gamma@), a@[k2]@),
        decreases n - k,
    {
        let t = fe_mul(&p[k], gamma);
        r.push(fe_add(&t, &a[k]));
        k = k + 1;
    }
    r
}

/// Scales points of the first group by `gamma`.
pub fn scale_g1s(p: &Vec<G1>, gamma: &Fe) -> (r: Vec<G1>)
    ensures
        r@.len() == p@.len(),
        forall|k: int| 0 <= k < r@.len() ==> (#[trigger] r@[k])@ == g1_scale(p@[k]@, gamma@),
{
    let mut r: Vec<G1> = Vec::new();
    let mut k: usize = 0;
    while k < p.len()
        invariant
            k <= p@.len(),
            r@.len() == k,
            forall|k2: int| 0 <= k2 < k ==> (#[trigger] r@[k2])@ == g1_scale(p@[k2]@, gamma@),
        decreases p@.len() - k,
    {
        r.push(g1_scale_at(&p[k], gamma));
        k = k + 1;
    }
    r
}

/// Scales field elements by `gamma`.
pub fn scale_fes(p: &Vec<Fe>, gamma: &Fe) -> (r: Vec<Fe>)
    ensures
        r@.len() == p@.len(),
        forall|k: int| 0 <= k < r@.len() ==> (#[trigger] r@[k])@ == fmul(p@[k]@, gamma@),
{
    let mut r: Vec<Fe> = Vec::new();
    let mut k: usize = 0;
    while k < p.len()
        invariant
            k <= p@.len(),
            r@.len() == k,
            forall|k2: int| 0 <= k2 < k ==> (#[trigger] r@[k2])@ == fmul(p@[k2]@, gamma@),
        decreases p@.len() - k,
    {
        r.push(fe_mul(&p[k], gamma));
        k = k + 1;
    }
    r
}

} // verus!
