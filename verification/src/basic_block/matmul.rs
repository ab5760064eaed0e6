//! Matrix products.
use super::{vec_tensor, CQOutOfRangeError};
use crate::field::{modulus, Fe, fe_add, fe_mul};
use crate::tensor::{shape_size, Tensor};
use vstd::prelude::*;

verus! {

/// The integer sum of `a[ao + t] * b[bo + t * bs]` for `t` below `k`.
pub open spec fn dot_int(a: Seq<Fe>, ao: int, b: Seq<Fe>, bo: int, bs: int, k: nat) -> int
    decreases k,
{
    if k == 0 {
        0
    } else {
        dot_int(a, ao, b, bo, bs, (k - 1) as nat) + a[ao + k - 1]@ * b[bo + (k - 1) * bs]@
    }
}

/// The field value of `sum_t a[ao + t] * b[bo + t * bs]` for `t` below `n`.
pub open spec fn dot(a: Seq<Fe>, ao: int, b: Seq<Fe>, bo: int, bs: int, n: nat) -> nat {
    (dot_int(a, ao, b, bo, bs, n) % (modulus() as int)) as nat
}

/// The field sum of products of `n` elements of `a` from `ao` with elements
/// of `b` from `bo`, `bs` apart.
pub fn dot_exec(a: &Vec<Fe>, ao: usize, b: &Vec<Fe>, bo: usize, bs: usize, n: usize) -> (r: Fe)
    requires
        ao + n <= a.len(),
        n > 0 ==> bo + (n - 1) * bs < b.len(),
    ensures
        r@ == dot(a@, ao as int, b@, bo as int, bs as int, n as nat),
{
    let mut acc = Fe::zero();
    let mut t: usize = 0;
    while t < n
        invariant
            ao + n <= a.len(),
            n > 0 ==> bo + (n - 1) * bs < b.len(),
            t <= n,
            acc@ == dot(a@, ao as int, b@, bo as int, bs as int, t as nat),
        decreases n - t,
    {
        proof {
            assert(bo + t * bs <= bo + (n - 1) * bs) by (nonlinear_arith)
                requires
                    t < n,
            ;
        }
        let p = fe_mul(&a[ao + t], &b[bo + t * bs]);
        let ghost prev = acc@;
        acc = fe_add(&acc, &p);
        proof {
            let m = modulus() as int;
            let s = dot_int(a@, ao as int, b@, bo as int, bs as int, t as nat);
            let xy = (a@[ao + t]@ * b@[bo + t * bs]@) as int;
            vstd::arithmetic::div_mod::lemma_add_mod_noop(s, xy, m);
            vstd::arithmetic::div_mod::lemma_mod_twice(s, m);
            vstd::arithmetic::div_mod::lemma_mod_twice(xy, m);
        }
        t = t + 1;
    }
    acc
}

/// Multiplies a vector or the rows of a matrix by the rows of a matrix:
/// `out[i] = sum_j a[j] b[i][j]`, or `out[i][j] = sum_k a[i][k] b[j][k]`.
#[derive(Debug)]
pub struct MatMulBasicBlock {
    pub m: usize,
    pub n: usize,
}

/// The inputs a product accepts: a vector or matrix with rows as long as
/// those of the second input, a matrix.
pub open spec fn matmul_accepts(inputs: Seq<Tensor<Fe>>) -> bool {
    &&& inputs.len() == 2
    &&& inputs[0].wf() && inputs[1].wf()
    &&& inputs[1].ndim() == 2
    &&& (inputs[0].ndim() == 1 && inputs[0].shape@[0] == inputs[1].shape@[1]) || (inputs[0].ndim()
        == 2 && inputs[0].shape@[1] == inputs[1].shape@[1])
    &&& inputs[0].ndim() == 2 ==> inputs[0].shape@[0] * inputs[1].shape@[0] <= usize::MAX
}

/// A matrix of shape `[r, c]` holds `r * c` elements.
proof fn lemma_matrix_size(s: Seq<usize>)
    requires
        s.len() == 2,
    ensures
        shape_size(s) == s[0] * s[1],
{
    assert(s.drop_first() =~= seq![s[1]]);
    crate::tensor::lemma_single_size(s[1]);
}

impl MatMulBasicBlock {
    pub fn run(&self, _model: &Tensor<Fe>, inputs: &Vec<Tensor<Fe>>) -> (r: Result<Vec<Tensor<Fe>>, CQOutOfRangeError>)
        requires
            matmul_accepts(inputs@),
        ensures
            r matches Ok(out) && out@.len() == 1 && out@[0].wf() && {
                let a = inputs@[0];
                let b = inputs@[1];
                let m = b.shape@[0] as int;
                let n = b.shape@[1] as int;
                if a.ndim() == 1 {
                    &&& out@[0].shape@ == seq![m as usize]
                    &&& forall|i: int|
                        0 <= i < m ==> #[trigger] out@[0].data@[i]@ == dot(a.data@, 0, b.data@, i * n, 1, n as nat)
                } else {
                    let l = a.shape@[0] as int;
                    &&& out@[0].shape@ == seq![l as usize, m as usize]
                    &&& forall|i: int, j: int|
                        0 <= i < l && 0 <= j < m ==> #[trigger] out@[0].data@[i * m + j]@ == dot(
                            a.data@,
                            i * n,
                            b.data@,
                            j * n,
                            1,
                            n as nat,
                        )
                }
            },
    {
        let a = &inputs[0];
        let b = &inputs[1];
        let m = b.shape[0];
        let n = b.shape[1];
        proof {
            lemma_matrix_size(b.shape@);
        }
        if a.shape.len() == 1 {
            proof {
                crate::tensor::lemma_single_size(a.shape@[0]);
                assert(a.shape@ =~= seq![a.shape@[0]]);
            }
            let alen = a.data.len();
            let blen = b.data.len();
            let mut data: Vec<Fe> = Vec::new();
            let mut i: usize = 0;
            while i < m
                invariant
                    a.data@.len() == n,
                    b.data@.len() == m * n,
                    blen == b.data@.len(),
                    i <= m,
                    data@.len() == i,
                    forall|k: int|
                        0 <= k < i ==> #[trigger] data@[k]@ == dot(a.data@, 0, b.data@, k * n, 1, n as nat),
                decreases m - i,
            {
                proof {
                    assert(i * n + n <= m * n) by (nonlinear_arith)
                        requires
                            i < m,
                    ;
                }
                data.push(dot_exec(&a.data, 0, &b.data, i * n, 1, n));
                i = i + 1;
            }
            let mut out: Vec<Tensor<Fe>> = Vec::new();
            out.push(vec_tensor(data));
            Ok(out)
        } else {
            let l = a.shape[0];
            proof {
                lemma_matrix_size(a.shape@);
            }
            let alen = a.data.len();
            let blen = b.data.len();
            let mut data: Vec<Fe> = Vec::new();
            let mut i: usize = 0;
            while i < l
                invariant
                    a.data@.len() == l * n,
                    b.data@.len() == m * n,
                    alen == a.data@.len(),
                    blen == b.data@.len(),
                    l * m <= usize::MAX,
                    i <= l,
                    data@.len() == i * m,
                    forall|i2: int, j2: int|
                        0 <= i2 < i && 0 <= j2 < m ==> #[trigger] data@[i2 * m + j2]@ == dot(
                            a.data@,
                            i2 * n,
                            b.data@,
                            j2 * n,
                            1,
                            n as nat,
                        ),
                decreases l - i,
            {
                let mut j: usize = 0;
                while j < m
                    invariant
                        a.data@.len() == l * n,
                        b.data@.len() == m * n,
                        alen == a.data@.len(),
                        blen == b.data@.len(),
                        l * m <= usize::MAX,
                        i < l,
                        j <= m,
                        data@.len() == i * m + j,
                        forall|i2: int, j2: int|
                            0 <= i2 < i && 0 <= j2 < m ==> #[trigger] data@[i2 * m + j2]@ == dot(
                                a.data@,
                                i2 * n,
                                b.data@,
                                j2 * n,
                                1,
                                n as nat,
                            ),
                        forall|j2: int|
                            0 <= j2 < j ==> #[trigger] data@[i * m + j2]@ == dot(
                                a.data@,
                                i * n,
                                b.data@,
                                j2 * n,
                                1,
                                n as nat,
                            ),
                    decreases m - j,
                {
                    proof {
                        assert(i * n + n <= l * n) by (nonlinear_arith)
                            requires
                                i < l,
                        ;
                        assert(j * n + n <= m * n) by (nonlinear_arith)
                            requires
                                j < m,
                        ;
                        assert(i * m + j < l * m) by (nonlinear_arith)
                            requires
                                i < l,
                                j < m,
                        ;
                    }
                    data.push(dot_exec(&a.data, i * n, &b.data, j * n, 1, n));
                    proof {
                        assert forall|i2: int, j2: int|
                            0 <= i2 < i && 0 <= j2 < m implies #[trigger] data@[i2 * m + j2]@ == dot(
                                a.data@,
                                i2 * n,
                                b.data@,
                                j2 * n,
                                1,
                                n as nat,
                            ) by {
                            assert(i2 * m + j2 < i * m) by (nonlinear_arith)
                                requires
                                    i2 < i,
                                    j2 < m,
                            ;
                        }
                    }
                    j = j + 1;
                }
                proof {
                    assert((i + 1) * m == i * m + m) by (nonlinear_arith);
                }
                i = i + 1;
            }
            let mut shape: Vec<usize> = Vec::new();
            shape.push(l);
            shape.push(m);
            proof {
                assert(shape@ =~= seq![l, m]);
                lemma_matrix_size(shape@);
            }
            let mut out: Vec<Tensor<Fe>> = Vec::new();
            out.push(Tensor { shape, data });
            Ok(out)
        }
    }
}

} // verus!

verus! {

/// An error term of an accumulated product proof: elements of the first
/// group, of the second group, of the field, and of the pairing target group.
pub type MatMulErrTerm<P, Q, R> = (Vec<P>, Vec<Q>, Vec<Fe>, Vec<R>);

/// An accumulated product proof, cut into its parts.
pub struct MatMulAccHolder<P, Q, R> {
    pub acc_g1: Vec<P>,
    pub acc_g2: Vec<Q>,
    pub acc_fr: Vec<Fe>,
    pub mu: Fe,
    pub errs: Vec<MatMulErrTerm<P, Q, R>>,
    pub acc_errs: Vec<MatMulErrTerm<P, Q, R>>,
}

/// The accumulated elements that the challenges are drawn from.
#[derive(Clone, Copy)]
pub struct MatMulAccFiatShamir<P, Q> {
    pub acc_left_x: P,
    pub acc_left_Q_x: P,
    pub acc_left_zero: P,
    pub acc_left_zero_div: P,
    pub acc_right_x: P,
    pub acc_right_Q_x: P,
    pub acc_right_zero_div: P,
    pub acc_flat_A: P,
    pub acc_flat_B: P,
    pub acc_flat_C: P,
    pub acc_flat_B_g2: Q,
    pub acc_beta_pow_g2: Q,
}

/// The accumulated elements only the prover holds.
#[derive(Clone, Copy)]
pub struct MatMulAccProofProverOnly<P> {
    pub acc_part_corr1: P,
    pub acc_flat_A_no_blind: P,
    pub acc_flat_B_no_blind: P,
    pub acc_flat_A_r: Fe,
    pub acc_flat_B_r: Fe,
}

/// The error terms of one accumulation step.
#[derive(Clone, Copy)]
pub struct MatMulErrs<P, R> {
    pub acc_left_Q_x: P,
    pub acc_left_x: P,
    pub acc_part_corr1: P,
    pub acc_gt: R,
}

/// The accumulated error terms.
#[derive(Clone, Copy)]
pub struct MatMulAccErrs<P, R> {
    pub acc_left_Q_x: P,
    pub acc_left_x: P,
    pub acc_part_corr1: P,
    pub acc_gt: R,
}

/// An accumulated product proof.
pub struct MatMulAccProof<P, Q, R> {
    pub fiat_shamir: MatMulAccFiatShamir<P, Q>,
    pub acc_corr: [P; 4],
    pub mu: Fe,
    pub prover_only: Option<MatMulAccProofProverOnly<P>>,
    pub errs: MatMulErrs<P, R>,
    pub acc_errs: MatMulAccErrs<P, R>,
}

/// The first-group elements of an accumulated proof, in the holder's order:
/// the challenge elements up to `acc_right_zero_div`, the four corrections,
/// the three flattened matrices, and then, for the prover, its own three.
pub open spec fn matmul_g1_seq<P, Q, R>(acc: MatMulAccProof<P, Q, R>, is_prover: bool) -> Seq<P> {
    let f = acc.fiat_shamir;
    let common = seq![
        f.acc_left_x,
        f.acc_left_Q_x,
        f.acc_left_zero,
        f.acc_left_zero_div,
        f.acc_right_x,
        f.acc_right_Q_x,
        f.acc_right_zero_div,
        acc.acc_corr[0],
        acc.acc_corr[1],
        acc.acc_corr[2],
        acc.acc_corr[3],
        f.acc_flat_A,
        f.acc_flat_B,
        f.acc_flat_C,
    ];
    if is_prover {
        let po = acc.prover_only->0;
        common + seq![po.acc_part_corr1, po.acc_flat_A_no_blind, po.acc_flat_B_no_blind]
    } else {
        common
    }
}

/// The field elements of an accumulated proof, in the holder's order.
pub open spec fn matmul_fr_seq<P, Q, R>(acc: MatMulAccProof<P, Q, R>, is_prover: bool) -> Seq<Fe> {
    if is_prover {
        seq![acc.prover_only->0.acc_flat_A_r, acc.prover_only->0.acc_flat_B_r]
    } else {
        Seq::empty()
    }
}

/// Whether an error term holds the three first-group elements and the
/// target-group element given, and nothing else.
pub open spec fn matmul_err_is<P, Q, R>(e: MatMulErrTerm<P, Q, R>, a: P, b: P, c: P, gt: R) -> bool {
    e.0@ == seq![a, b, c] && e.1@.len() == 0 && e.2@.len() == 0 && e.3@ == seq![gt]
}

/// Whether a holder holds exactly the parts of an accumulated proof.
pub open spec fn matmul_holds<P, Q, R>(h: MatMulAccHolder<P, Q, R>, acc: MatMulAccProof<P, Q, R>, is_prover: bool) -> bool {
    &&& h.acc_g1@ == matmul_g1_seq(acc, is_prover)
    &&& h.acc_g2@ == seq![acc.fiat_shamir.acc_flat_B_g2, acc.fiat_shamir.acc_beta_pow_g2]
    &&& h.acc_fr@ == matmul_fr_seq(acc, is_prover)
    &&& h.mu == acc.mu
    &&& h.errs@.len() == 1
    &&& matmul_err_is(h.errs@[0], acc.errs.acc_left_Q_x, acc.errs.acc_left_x, acc.errs.acc_part_corr1, acc.errs.acc_gt)
    &&& h.acc_errs@.len() == 1
    &&& matmul_err_is(
        h.acc_errs@[0],
        acc.acc_errs.acc_left_Q_x,
        acc.acc_errs.acc_left_x,
        acc.acc_errs.acc_part_corr1,
        acc.acc_errs.acc_gt,
    )
}

/// The accumulated proof that a holder's parts stand for.
pub open spec fn matmul_read<P, Q, R>(h: MatMulAccHolder<P, Q, R>, is_prover: bool) -> MatMulAccProof<P, Q, R> {
    let g1 = h.acc_g1@;
    MatMulAccProof {
        fiat_shamir: MatMulAccFiatShamir {
            acc_left_x: g1[0],
            acc_left_Q_x: g1[1],
            acc_left_zero: g1[2],
            acc_left_zero_div: g1[3],
            acc_right_x: g1[4],
            acc_right_Q_x: g1[5],
            acc_right_zero_div: g1[6],
            acc_flat_A: g1[11],
            acc_flat_B: g1[12],
            acc_flat_C: g1[13],
            acc_flat_B_g2: h.acc_g2@[0],
            acc_beta_pow_g2: h.acc_g2@[1],
        },
        acc_corr: [g1[7], g1[8], g1[9], g1[10]],
        mu: h.mu,
        prover_only: if is_prover {
            Some(
                MatMulAccProofProverOnly {
                    acc_part_corr1: g1[14],
                    acc_flat_A_no_blind: g1[15],
                    acc_flat_B_no_blind: g1[16],
                    acc_flat_A_r: h.acc_fr@[0],
                    acc_flat_B_r: h.acc_fr@[1],
                },
            )
        } else {
            None
        },
        errs: MatMulErrs {
            acc_left_Q_x: h.errs@[0].0@[0],
            acc_left_x: h.errs@[0].0@[1],
            acc_part_corr1: h.errs@[0].0@[2],
            acc_gt: h.errs@[0].3@[0],
        },
        acc_errs: MatMulAccErrs {
            acc_left_Q_x: h.acc_errs@[0].0@[0],
            acc_left_x: h.acc_errs@[0].0@[1],
            acc_part_corr1: h.acc_errs@[0].0@[2],
            acc_gt: h.acc_errs@[0].3@[0],
        },
    }
}

/// The holders that `matmul_acc_holder_to_acc` reads: enough elements of
/// each kind for the prover's or the verifier's proof.
pub open spec fn matmul_holder_readable<P, Q, R>(h: MatMulAccHolder<P, Q, R>, is_prover: bool) -> bool {
    &&& h.acc_g1@.len() >= if is_prover { 17int } else { 14int }
    &&& h.acc_g2@.len() >= 2
    &&& is_prover ==> h.acc_fr@.len() >= 2
    &&& h.errs@.len() >= 1
    &&& h.errs@[0].0@.len() >= 3
    &&& h.errs@[0].3@.len() >= 1
    &&& h.acc_errs@.len() >= 1
    &&& h.acc_errs@[0].0@.len() >= 3
    &&& h.acc_errs@[0].3@.len() >= 1
}

/// Reads an accumulated product proof out of its holder.
pub fn matmul_acc_holder_to_acc<P: Copy, Q: Copy, R: Copy>(acc_holder: MatMulAccHolder<P, Q, R>, is_prover: bool) -> (r:
    MatMulAccProof<P, Q, R>)
    requires
        matmul_holder_readable(acc_holder, is_prover),
    ensures
        r == matmul_read(acc_holder, is_prover),
{
    let g1 = &acc_holder.acc_g1;
    let errs = &acc_holder.errs[0];
    let acc_errs = &acc_holder.acc_errs[0];
    MatMulAccProof {
        fiat_shamir: MatMulAccFiatShamir {
            acc_left_x: g1[0],
            acc_left_Q_x: g1[1],
            acc_left_zero: g1[2],
            acc_left_zero_div: g1[3],
            acc_right_x: g1[4],
            acc_right_Q_x: g1[5],
            acc_right_zero_div: g1[6],
            acc_flat_A: g1[11],
            acc_flat_B: g1[12],
            acc_flat_C: g1[13],
            acc_flat_B_g2: acc_holder.acc_g2[0],
            acc_beta_pow_g2: acc_holder.acc_g2[1],
        },
        acc_corr: [g1[7], g1[8], g1[9], g1[10]],
        mu: acc_holder.mu,
        prover_only: if is_prover {
            Some(
                MatMulAccProofProverOnly {
                    acc_part_corr1: g1[14],
                    acc_flat_A_no_blind: g1[15],
                    acc_flat_B_no_blind: g1[16],
                    acc_flat_A_r: acc_holder.acc_fr[0],
                    acc_flat_B_r: acc_holder.acc_fr[1],
                },
            )
        } else {
            None
        },
        errs: MatMulErrs {
            acc_left_Q_x: errs.0[0],
            acc_left_x: errs.0[1],
            acc_part_corr1: errs.0[2],
            acc_gt: errs.3[0],
        },
        acc_errs: MatMulAccErrs {
            acc_left_Q_x: acc_errs.0[0],
            acc_left_x: acc_errs.0[1],
            acc_part_corr1: acc_errs.0[2],
            acc_gt: acc_errs.3[0],
        },
    }
}

/// An error term holding three first-group elements and one target-group
/// element.
fn matmul_err<P: Copy, Q, R: Copy>(a: P, b: P, c: P, gt: R) -> (r: MatMulErrTerm<P, Q, R>)
    ensures
        matmul_err_is(r, a, b, c, gt),
{
    let mut g1: Vec<P> = Vec::new();
    g1.push(a);
    g1.push(b);
    g1.push(c);
    let mut gts: Vec<R> = Vec::new();
    gts.push(gt);
    proof {
        assert(g1@ =~= seq![a, b, c]);
        assert(gts@ =~= seq![gt]);
    }
    (g1, Vec::new(), Vec::new(), gts)
}

/// Cuts an accumulated product proof into the parts of a holder; the prover's
/// own elements are kept only for the prover.
pub fn matmul_acc_to_acc_holder<P: Copy, Q: Copy, R: Copy>(acc: MatMulAccProof<P, Q, R>, is_prover: bool) -> (r:
    MatMulAccHolder<P, Q, R>)
    requires
        is_prover ==> acc.prover_only is Some,
    ensures
        matmul_holds(r, acc, is_prover),
{
    let f = acc.fiat_shamir;
    let mut acc_g2: Vec<Q> = Vec::new();
    acc_g2.push(f.acc_flat_B_g2);
    acc_g2.push(f.acc_beta_pow_g2);
    let mu = acc.mu;
    let mut errs: Vec<MatMulErrTerm<P, Q, R>> = Vec::new();
    errs.push(matmul_err(acc.errs.acc_left_Q_x, acc.errs.acc_left_x, acc.errs.acc_part_corr1, acc.errs.acc_gt));
    let mut acc_errs: Vec<MatMulErrTerm<P, Q, R>> = Vec::new();
    acc_errs.push(
        matmul_err(acc.acc_errs.acc_left_Q_x, acc.acc_errs.acc_left_x, acc.acc_errs.acc_part_corr1, acc.acc_errs.acc_gt),
    );
    let mut acc_g1: Vec<P> = Vec::new();
    acc_g1.push(f.acc_left_x);
    acc_g1.push(f.acc_left_Q_x);
    acc_g1.push(f.acc_left_zero);
    acc_g1.push(f.acc_left_zero_div);
    acc_g1.push(f.acc_right_x);
    acc_g1.push(f.acc_right_Q_x);
    acc_g1.push(f.acc_right_zero_div);
    acc_g1.push(acc.acc_corr[0]);
    acc_g1.push(acc.acc_corr[1]);
    acc_g1.push(acc.acc_corr[2]);
    acc_g1.push(acc.acc_corr[3]);
    acc_g1.push(f.acc_flat_A);
    acc_g1.push(f.acc_flat_B);
    acc_g1.push(f.acc_flat_C);
    let mut acc_fr: Vec<Fe> = Vec::new();
    if is_prover {
        let prover_only = acc.prover_only.unwrap();
        acc_g1.push(prover_only.acc_part_corr1);
        acc_g1.push(prover_only.acc_flat_A_no_blind);
        acc_g1.push(prover_only.acc_flat_B_no_blind);
        acc_fr.push(prover_only.acc_flat_A_r);
        acc_fr.push(prover_only.acc_flat_B_r);
    }
    proof {
        assert(acc_g1@ =~= matmul_g1_seq(acc, is_prover));
        assert(acc_fr@ =~= matmul_fr_seq(acc, is_prover));
        assert(acc_g2@ =~= seq![f.acc_flat_B_g2, f.acc_beta_pow_g2]);
    }
    MatMulAccHolder { acc_g1, acc_g2, acc_fr, mu, errs, acc_errs }
}

/// Reading back the holder of an accumulated product proof gives the proof
/// itself, for the prover's proof (which has its own part) and for the
/// verifier's (which has none).
pub proof fn matmul_acc_roundtrip<P, Q, R>(acc: MatMulAccProof<P, Q, R>, h: MatMulAccHolder<P, Q, R>, is_prover: bool)
    requires
        is_prover <==> acc.prover_only is Some,
        matmul_holds(h, acc, is_prover),
    ensures
        matmul_holder_readable(h, is_prover),
        matmul_read(h, is_prover) == acc,
{
    assert(matmul_read(h, is_prover).acc_corr =~= acc.acc_corr);
}

} // verus!

verus! {

/// The number of accumulated first-group elements of a product proof.
pub open spec fn matmul_g1_count(is_prover: bool) -> nat {
    if is_prover {
        17
    } else {
        14
    }
}

/// The number of accumulated field elements of a product proof.
pub open spec fn matmul_fr_count(is_prover: bool) -> nat {
    if is_prover {
        2
    } else {
        0
    }
}

impl MatMulBasicBlock {
    /// The number of accumulated first-group elements.
    pub fn acc_g1_num(&self, is_prover: bool) -> (r: usize)
        ensures
            r == matmul_g1_count(is_prover),
    {
        if is_prover {
            17
        } else {
            14
        }
    }

    /// The number of accumulated second-group elements.
    pub fn acc_g2_num(&self, _is_prover: bool) -> (r: usize)
        ensures
            r == 2,
    {
        2
    }

    /// The number of accumulated field elements.
    pub fn acc_fr_num(&self, is_prover: bool) -> (r: usize)
        ensures
            r == matmul_fr_count(is_prover),
    {
        if is_prover {
            2
        } else {
            0
        }
    }

    /// The number of first-group elements of each error term.
    pub fn err_g1_nums(&self) -> (r: Vec<usize>)
        ensures
            r@ == seq![3usize],
    {
        let mut r: Vec<usize> = Vec::new();
        r.push(3);
        proof {
            assert(r@ =~= seq![3usize]);
        }
        r
    }

    /// The number of second-group elements of each error term.
    pub fn err_g2_nums(&self) -> (r: Vec<usize>)
        ensures
            r@ == seq![0usize],
    {
        let mut r: Vec<usize> = Vec::new();
        r.push(0);
        proof {
            assert(r@ =~= seq![0usize]);
        }
        r
    }

    /// The number of field elements of each error term.
    pub fn err_fr_nums(&self) -> (r: Vec<usize>)
        ensures
            r@ == seq![0usize],
    {
        let mut r: Vec<usize> = Vec::new();
        r.push(0);
        proof {
            assert(r@ =~= seq![0usize]);
        }
        r
    }

    /// The number of target-group elements of each error term.
    pub fn err_gt_nums(&self) -> (r: Vec<usize>)
        ensures
            r@ == seq![1usize],
    {
        let mut r: Vec<usize> = Vec::new();
        r.push(1);
        proof {
            assert(r@ =~= seq![1usize]);
        }
        r
    }
}

/// The holder of an accumulated product proof has as many elements of each
/// kind as the block's layout counts: `acc_g1_num`, `acc_g2_num` and
/// `acc_fr_num` elements, and one error term of `err_g1_nums`,
/// `err_g2_nums`, `err_fr_nums` and `err_gt_nums` elements.
pub proof fn matmul_holder_follows_layout<P, Q, R>(h: MatMulAccHolder<P, Q, R>, acc: MatMulAccProof<P, Q, R>, is_prover: bool)
    requires
        matmul_holds(h, acc, is_prover),
    ensures
        h.acc_g1@.len() == matmul_g1_count(is_prover),
        h.acc_g2@.len() == 2,
        h.acc_fr@.len() == matmul_fr_count(is_prover),
        h.errs@.len() == 1 && h.errs@[0].0@.len() == 3 && h.errs@[0].1@.len() == 0 && h.errs@[0].2@.len() == 0
            && h.errs@[0].3@.len() == 1,
        h.acc_errs@.len() == 1 && h.acc_errs@[0].0@.len() == 3 && h.acc_errs@[0].3@.len() == 1,
{
}

} // verus!

verus! {

/// Element `i` of a tensor: its first element for `i == 0`, and otherwise
/// element `i` of a vector.
pub fn index<T>(A: &Tensor<T>, i: usize) -> (r: &T)
    requires
        A.wf(),
        i == 0 ==> A.data@.len() >= 1,
        i > 0 ==> A.shape@.len() == 1 && i < A.data@.len(),
    ensures
        *r == A.data@[i as int],
{
    &A.data[i]
}

} // verus!
