//! Polynomials over the scalar field, as coefficient vectors, lowest first.
use crate::field::{fadd, fe_add, fe_mul, fe_views, fmul, Fe};
use vstd::prelude::*;

verus! {

/// The value of the polynomial with coefficients `c` (lowest first) at `x`:
/// `c[0] + x * (c[1] + x * (...))`.
pub open spec fn poly_eval(c: Seq<nat>, x: nat) -> nat
    decreases c.len(),
{
    if c.len() == 0 {
        0
    } else {
        fadd(fmul(poly_eval(c.drop_first(), x), x), c[0])
    }
}

/// The value of a polynomial at a point, by Horner's rule from the highest
/// coefficient, as `DensePolynomial::evaluate` computes it.
pub fn evaluate(c: &Vec<Fe>, x: &Fe) -> (r: Fe)
    ensures
        r@ == poly_eval(fe_views(c@), x@),
{
    let mut acc = Fe::zero();
    let mut k: usize = c.len();
    proof {
        assert(fe_views(c@).skip(k as int) =~= Seq::<nat>::empty());
    }
    while k > 0
        invariant
            k <= c@.len(),
            acc@ == poly_eval(fe_views(c@).skip(k as int), x@),
        decreases k,
    {
        k = k - 1;
        let t = fe_mul(&acc, x);
        acc = fe_add(&t, &c[k]);
        proof {
            let s = fe_views(c@).skip(k as int);
            assert(s.drop_first() =~= fe_views(c@).skip(k + 1));
            assert(s[0] == c@[k as int]@);
        }
    }
    proof {
        assert(fe_views(c@).skip(0) =~= fe_views(c@));
    }
    acc
}

} // verus!

verus! {

/// Coefficient `i` of `a`, zero past its end.
pub open spec fn coef(a: Seq<nat>, i: int) -> nat {
    if 0 <= i < a.len() {
        a[i]
    } else {
        0
    }
}

/// `sum_(i < t) a[i] * b[k - i]`.
pub open spec fn conv_sum(a: Seq<nat>, b: Seq<nat>, k: int, t: nat) -> nat
    decreases t,
{
    if t == 0 {
        0
    } else {
        fadd(conv_sum(a, b, k, (t - 1) as nat), fmul(coef(a, t - 1), coef(b, k - (t - 1))))
    }
}

/// The coefficients of the product of two polynomials, without trailing
/// zeros.
pub open spec fn poly_product(a: Seq<nat>, b: Seq<nat>) -> Seq<nat> {
    crate::basic_block::data::trim(Seq::new(a.len() + b.len(), |k: int| conv_sum(a, b, k, a.len())))
}

/// The coefficients of `a - b`, without trailing zeros.
pub open spec fn poly_difference(a: Seq<nat>, b: Seq<nat>) -> Seq<nat> {
    crate::basic_block::data::trim(
        Seq::new(if a.len() < b.len() { b.len() } else { a.len() }, |i: int| crate::field::fsub(coef(a, i), coef(b, i))),
    )
}

/// `a[i] + a[i + n] + a[i + 2 n] + ...`.
pub open spec fn strided_sum(a: Seq<nat>, i: int, n: nat) -> nat
    decreases if 0 <= i < a.len() { a.len() - i } else { 0 },
{
    if n == 0 || i < 0 || i >= a.len() {
        0
    } else {
        fadd(a[i], strided_sum(a, i + n, n))
    }
}

/// The coefficients of the quotient of `a` by `X^n - 1`, without trailing
/// zeros: coefficient `k` gathers `a[k + n], a[k + 2 n], ...`.
pub open spec fn vanishing_quotient(a: Seq<nat>, n: nat) -> Seq<nat> {
    if a.len() < n {
        Seq::empty()
    } else {
        crate::basic_block::data::trim(Seq::new((a.len() - n) as nat, |k: int| strided_sum(a, k + n, n)))
    }
}

/// `&DensePolynomial * &DensePolynomial` of `ark-poly`: zero if either is
/// zero, else the product through evaluations on a domain of at least
/// `a.len() + b.len()` points, without trailing zeros; the contract states
/// the product's coefficients.
#[verifier::external_body]
pub(crate) fn poly_mul_at(a: &Vec<Fe>, b: &Vec<Fe>) -> (r: Vec<Fe>)
    requires
        a@.len() + b@.len() <= 268435456,
    ensures
        fe_views(r@) == poly_product(fe_views(a@), fe_views(b@)),
{
    let c = |v: &Vec<Fe>| v.iter().map(|x| <ark_bn254::Fr as ark_ff::PrimeField>::from_bigint(ark_ff::BigInt(x.limbs())).unwrap()).collect();
    let p = ark_poly::univariate::DensePolynomial::<ark_bn254::Fr> { coeffs: c(a) };
    let q = ark_poly::univariate::DensePolynomial::<ark_bn254::Fr> { coeffs: c(b) };
    (&p * &q).coeffs.iter().map(|x| Fe::from_limbs(ark_ff::PrimeField::into_bigint(*x).0)).collect()
}

/// `&DensePolynomial - &DensePolynomial` of `ark-poly`, for polynomials
/// without trailing zeros (its degree check rejects others): the
/// coefficient-wise difference without trailing zeros, which the contract
/// states.
#[verifier::external_body]
pub(crate) fn poly_sub_at(a: &Vec<Fe>, b: &Vec<Fe>) -> (r: Vec<Fe>)
    requires
        crate::basic_block::data::trim(fe_views(a@)) == fe_views(a@),
        crate::basic_block::data::trim(fe_views(b@)) == fe_views(b@),
    ensures
        fe_views(r@) == poly_difference(fe_views(a@), fe_views(b@)),
{
    let c = |v: &Vec<Fe>| v.iter().map(|x| <ark_bn254::Fr as ark_ff::PrimeField>::from_bigint(ark_ff::BigInt(x.limbs())).unwrap()).collect();
    let p = ark_poly::univariate::DensePolynomial::<ark_bn254::Fr> { coeffs: c(a) };
    let q = ark_poly::univariate::DensePolynomial::<ark_bn254::Fr> { coeffs: c(b) };
    (&p - &q).coeffs.iter().map(|x| Fe::from_limbs(ark_ff::PrimeField::into_bigint(*x).0)).collect()
}

/// `DensePolynomial::divide_by_vanishing_poly` of `ark-poly` on the domain
/// built for `n` points, keeping the quotient: its coefficient `k` is the
/// sum of `a[k + s], a[k + 2 s], ...` for the domain size `s`, without
/// trailing zeros, which the contract states.
#[verifier::external_body]
pub(crate) fn vanishing_quotient_at(a: &Vec<Fe>, n: usize) -> (r: Vec<Fe>)
    requires
        n <= 268435456,
    ensures
        fe_views(r@) == vanishing_quotient(fe_views(a@), crate::tensor::next_pow_spec(n as nat)),
{
    let c = |v: &Vec<Fe>| v.iter().map(|x| <ark_bn254::Fr as ark_ff::PrimeField>::from_bigint(ark_ff::BigInt(x.limbs())).unwrap()).collect();
    let d = <ark_poly::GeneralEvaluationDomain<ark_bn254::Fr> as ark_poly::EvaluationDomain<ark_bn254::Fr>>::new(n).unwrap();
    let p = ark_poly::univariate::DensePolynomial::<ark_bn254::Fr> { coeffs: c(a) };
    let q = p.divide_by_vanishing_poly(d).unwrap().0;
    q.coeffs.iter().map(|x| Fe::from_limbs(ark_ff::PrimeField::into_bigint(*x).0)).collect()
}

} // verus!
