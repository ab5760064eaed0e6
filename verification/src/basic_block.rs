//! Basic blocks: the small operations that circuits are made of. Each block
//! computes its outputs from its inputs (and a model, for blocks with fixed
//! parameters) over the BN254 scalar field.
pub mod abs;
pub mod add;
pub mod alternate;
pub mod alternating;
pub mod bit_decomposition;
pub mod bool_check;
pub mod bridge;
pub mod clip;
pub mod concat;
pub mod constant;
pub mod copy_constraint;
pub mod copy_partitions;
pub mod concat_check;
pub mod concat_prove;
pub mod conv_check;
pub mod conv_laws;
pub mod copy_prove;
pub mod cq;
pub mod cq2;
pub mod cqlin;
pub mod cq_fold;
pub mod cq_verify;
pub mod cqlin_check;
pub mod cqlin_prove;
pub mod cqlin_fold;
pub mod cqlin_verify;
pub mod data;
pub mod div;
pub mod eq;
pub mod matmul;
pub mod matmul_check;
pub mod matmul_fold;
pub mod matmul_prove;
pub mod matmult;
pub mod max;
pub mod mul;
pub mod new_conv;
pub mod nonlinear;
pub mod permute;
pub mod permute_check;
pub mod prover;
pub mod range;
pub mod relu;
pub mod repeater;
pub mod reshape;
pub mod squeeze;
pub mod sub;
pub mod sum;
pub mod transcript;
pub mod transpose;

pub use data::{Data, DataEnc, SRS};
use crate::field::{fadd, fmul, fsub, Fe, fe_add, fe_mul, fe_sub};
use crate::tensor::{shape_size, Tensor};
use vstd::prelude::*;

verus! {

/// A lookup met an input outside the range of its table.
#[derive(Debug)]
pub struct CQOutOfRangeError {
    pub input: i128,
}

/// Values below this bound count as non-negative in comparisons against it.
pub open spec fn small_bound() -> nat {
    268435456nat
}

/// A tensor of one dimension holding `data`.
pub fn vec_tensor(data: Vec<Fe>) -> (r: Tensor<Fe>)
    ensures
        r.wf(),
        r.shape@ == seq![data@.len() as usize],
        r.data@ == data@,
{
    let mut shape: Vec<usize> = Vec::new();
    shape.push(data.len());
    proof {
        lemma_vec_shape_size(data@.len() as usize);
        assert(shape@ =~= seq![data@.len() as usize]);
    }
    Tensor { shape, data }
}

/// A copy of a sequence of field elements.
pub fn copy_fes(a: &Vec<Fe>) -> (r: Vec<Fe>)
    ensures
        r@ == a@,
{
    let mut r: Vec<Fe> = Vec::new();
    let mut i: usize = 0;
    while i < a.len()
        invariant
            i <= a.len(),
            r@ == a@.subrange(0, i as int),
        decreases a.len() - i,
    {
        r.push(a[i]);
        i = i + 1;
    }
    proof {
        assert(r@ =~= a@);
    }
    r
}

/// A copy of a sequence of dimensions.
pub fn copy_shape(a: &Vec<usize>) -> (r: Vec<usize>)
    ensures
        r@ == a@,
{
    let mut r: Vec<usize> = Vec::new();
    let mut i: usize = 0;
    while i < a.len()
        invariant
            i <= a.len(),
            r@ == a@.subrange(0, i as int),
        decreases a.len() - i,
    {
        r.push(a[i]);
        i = i + 1;
    }
    proof {
        assert(r@ =~= a@);
    }
    r
}

/// A copy of a tensor.
pub fn copy_tensor(t: &Tensor<Fe>) -> (r: Tensor<Fe>)
    ensures
        r.shape@ == t.shape@,
        r.data@ == t.data@,
{
    Tensor { shape: copy_shape(&t.shape), data: copy_fes(&t.data) }
}

/// `a[i] + b[i]` for each `i`.
pub fn add_elementwise(a: &Vec<Fe>, b: &Vec<Fe>) -> (r: Vec<Fe>)
    requires
        a.len() == b.len(),
    ensures
        r@.len() == a@.len(),
        forall|i: int| 0 <= i < a@.len() ==> #[trigger] r@[i]@ == fadd(a@[i]@, b@[i]@),
{
    let mut r: Vec<Fe> = Vec::new();
    let mut i: usize = 0;
    while i < a.len()
        invariant
            a.len() == b.len(),
            i <= a.len(),
            r@.len() == i,
            forall|k: int| 0 <= k < i ==> #[trigger] r@[k]@ == fadd(a@[k]@, b@[k]@),
        decreases a.len() - i,
    {
        r.push(fe_add(&a[i], &b[i]));
        i = i + 1;
    }
    r
}

/// `a[i] - b[i]` for each `i`.
pub fn sub_elementwise(a: &Vec<Fe>, b: &Vec<Fe>) -> (r: Vec<Fe>)
    requires
        a.len() == b.len(),
    ensures
        r@.len() == a@.len(),
        forall|i: int| 0 <= i < a@.len() ==> #[trigger] r@[i]@ == fsub(a@[i]@, b@[i]@),
{
    let mut r: Vec<Fe> = Vec::new();
    let mut i: usize = 0;
    while i < a.len()
        invariant
            a.len() == b.len(),
            i <= a.len(),
            r@.len() == i,
            forall|k: int| 0 <= k < i ==> #[trigger] r@[k]@ == fsub(a@[k]@, b@[k]@),
        decreases a.len() - i,
    {
        r.push(fe_sub(&a[i], &b[i]));
        i = i + 1;
    }
    r
}

/// `a[i] * b[i]` for each `i`.
pub fn mul_elementwise(a: &Vec<Fe>, b: &Vec<Fe>) -> (r: Vec<Fe>)
    requires
        a.len() == b.len(),
    ensures
        r@.len() == a@.len(),
        forall|i: int| 0 <= i < a@.len() ==> #[trigger] r@[i]@ == fmul(a@[i]@, b@[i]@),
{
    let mut r: Vec<Fe> = Vec::new();
    let mut i: usize = 0;
    while i < a.len()
        invariant
            a.len() == b.len(),
            i <= a.len(),
            r@.len() == i,
            forall|k: int| 0 <= k < i ==> #[trigger] r@[k]@ == fmul(a@[k]@, b@[k]@),
        decreases a.len() - i,
    {
        r.push(fe_mul(&a[i], &b[i]));
        i = i + 1;
    }
    r
}

/// `a[i] + s` for each `i`.
pub fn add_scalar(a: &Vec<Fe>, s: &Fe) -> (r: Vec<Fe>)
    ensures
        r@.len() == a@.len(),
        forall|i: int| 0 <= i < a@.len() ==> #[trigger] r@[i]@ == fadd(a@[i]@, s@),
{
    let mut r: Vec<Fe> = Vec::new();
    let mut i: usize = 0;
    while i < a.len()
        invariant
            i <= a.len(),
            r@.len() == i,
            forall|k: int| 0 <= k < i ==> #[trigger] r@[k]@ == fadd(a@[k]@, s@),
        decreases a.len() - i,
    {
        r.push(fe_add(&a[i], s));
        i = i + 1;
    }
    r
}

/// `a[i] * s` for each `i`.
pub fn mul_scalar(a: &Vec<Fe>, s: &Fe) -> (r: Vec<Fe>)
    ensures
        r@.len() == a@.len(),
        forall|i: int| 0 <= i < a@.len() ==> #[trigger] r@[i]@ == fmul(a@[i]@, s@),
{
    let mut r: Vec<Fe> = Vec::new();
    let mut i: usize = 0;
    while i < a.len()
        invariant
            i <= a.len(),
            r@.len() == i,
            forall|k: int| 0 <= k < i ==> #[trigger] r@[k]@ == fmul(a@[k]@, s@),
        decreases a.len() - i,
    {
        r.push(fe_mul(&a[i], s));
        i = i + 1;
    }
    r
}

/// `s - a[i]` for each `i`.
pub fn scalar_sub(s: &Fe, a: &Vec<Fe>) -> (r: Vec<Fe>)
    ensures
        r@.len() == a@.len(),
        forall|i: int| 0 <= i < a@.len() ==> #[trigger] r@[i]@ == fsub(s@, a@[i]@),
{
    let mut r: Vec<Fe> = Vec::new();
    let mut i: usize = 0;
    while i < a.len()
        invariant
            i <= a.len(),
            r@.len() == i,
            forall|k: int| 0 <= k < i ==> #[trigger] r@[k]@ == fsub(s@, a@[k]@),
        decreases a.len() - i,
    {
        r.push(fe_sub(s, &a[i]));
        i = i + 1;
    }
    r
}

/// The tensor shape of one dimension of length `n` has `n` elements.
pub proof fn lemma_vec_shape_size(n: usize)
    ensures
        shape_size(seq![n]) == n,
{
    let s = seq![n];
    assert(s.drop_first() =~= Seq::<usize>::empty());
    assert(shape_size(s.drop_first()) == 1);
    assert(shape_size(s) == (s[0] as nat) * shape_size(s.drop_first()));
}

} // verus!

verus! {

/// Adding back what was subtracted gives the element back: what the
/// subtraction block gives, plus its second input, is its first input.
pub proof fn add_undoes_sub(a: nat, b: nat)
    requires
        a < crate::field::modulus(),
        b < crate::field::modulus(),
    ensures
        fadd(fsub(a, b), b) == a,
{
    let m = crate::field::modulus() as int;
    let d = (a - b) % m;
    vstd::arithmetic::div_mod::lemma_mod_bound(a - b, m);
    vstd::arithmetic::div_mod::lemma_fundamental_div_mod(a - b, m);
    vstd::arithmetic::div_mod::lemma_add_mod_noop(a - b, b as int, m);
    vstd::arithmetic::div_mod::lemma_mod_twice(b as int, m);
    vstd::arithmetic::div_mod::lemma_small_mod(b as nat, m as nat);
    vstd::arithmetic::div_mod::lemma_small_mod(a as nat, m as nat);
}

} // verus!
