//! Elements of the BN254 scalar field, the field every tensor value of a
//! circuit lives in. The arithmetic itself is done by `ark_bn254`; this module
//! keeps each element as its canonical 256-bit representative in four
//! little-endian limbs, so that contracts can speak of its integer value.
use crate::basic_block::transpose::fpow;
use crate::tensor::next_pow_spec;
use vstd::prelude::*;

verus! {

/// 2^64, the weight of one limb.
pub open spec fn limb_base() -> nat {
    18446744073709551616nat
}

/// The order of the BN254 scalar field.
pub open spec fn modulus() -> nat {
    21888242871839275222246405745257275088548364400416034343698204186575808495617nat
}

/// The integer that four little-endian limbs stand for.
pub open spec fn limbs_value(l0: u64, l1: u64, l2: u64, l3: u64) -> nat {
    (l0 as nat) + limb_base() * ((l1 as nat) + limb_base() * ((l2 as nat) + limb_base() * (l3 as nat)))
}

/// Field addition on representatives.
pub open spec fn fadd(a: nat, b: nat) -> nat {
    (a + b) % modulus()
}

/// Field subtraction on representatives.
pub open spec fn fsub(a: nat, b: nat) -> nat {
    ((a - b) % (modulus() as int)) as nat
}

/// Field multiplication on representatives.
pub open spec fn fmul(a: nat, b: nat) -> nat {
    (a * b) % modulus()
}

/// Field negation on representatives.
pub open spec fn fneg(a: nat) -> nat {
    ((0 - a) % (modulus() as int)) as nat
}

/// The field element that an integer stands for.
pub open spec fn int_to_field(x: int) -> nat {
    (x % (modulus() as int)) as nat
}

/// A BN254 scalar field element, held as its canonical representative.
#[derive(Clone, Copy, Debug, PartialEq, Eq, Structural)]
pub struct Fe {
    l0: u64,
    l1: u64,
    l2: u64,
    l3: u64,
}

impl View for Fe {
    type V = nat;

    closed spec fn view(&self) -> nat {
        limbs_value(self.l0, self.l1, self.l2, self.l3)
    }
}

impl Fe {
    /// The representative is always reduced below the modulus.
    #[verifier::type_invariant]
    pub closed spec fn canonical(self) -> bool {
        limbs_value(self.l0, self.l1, self.l2, self.l3) < modulus()
    }

    /// A canonical element's value is below the modulus.
    pub proof fn lemma_canonical(self)
        requires
            self.canonical(),
        ensures
            self@ < modulus(),
    {
    }

    pub closed spec fn spec_limb(self, i: int) -> u64 {
        if i == 0 {
            self.l0
        } else if i == 1 {
            self.l1
        } else if i == 2 {
            self.l2
        } else {
            self.l3
        }
    }

    /// The element whose value is `x`.
    pub fn from_u64(x: u64) -> (r: Fe)
        ensures
            r@ == x,
    {
        proof {
            lemma_limbs_value_low(x);
        }
        Fe { l0: x, l1: 0, l2: 0, l3: 0 }
    }

    /// The additive identity.
    pub fn zero() -> (r: Fe)
        ensures
            r@ == 0,
    {
        Fe::from_u64(0)
    }

    /// The multiplicative identity.
    pub fn one() -> (r: Fe)
        ensures
            r@ == 1,
    {
        Fe::from_u64(1)
    }

    /// The field element that a signed integer stands for: `x` itself when
    /// it is not negative, and `modulus + x` when it is.
    pub fn from_i64(x: i64) -> (r: Fe)
        ensures
            r@ == int_to_field(x as int),
    {
        if x >= 0 {
            Fe::from_u64(x as u64)
        } else {
            let abs: u64 = if x == i64::MIN {
                9223372036854775808u64
            } else {
                (-x) as u64
            };
            let a = Fe::from_u64(abs);
            fe_neg(&a)
        }
    }

    /// The element whose canonical representative has these limbs, least
    /// significant first.
    pub(crate) fn from_limbs(l: [u64; 4]) -> (r: Fe)
        requires
            limbs_value(l[0], l[1], l[2], l[3]) < modulus(),
        ensures
            r@ == limbs_value(l[0], l[1], l[2], l[3]),
    {
        Fe { l0: l[0], l1: l[1], l2: l[2], l3: l[3] }
    }

    /// The limbs of the canonical representative, least significant first.
    pub fn limbs(&self) -> (r: [u64; 4])
        ensures
            limbs_value(r[0], r[1], r[2], r[3]) == self@,
            r[0] == self.spec_limb(0),
            r[1] == self.spec_limb(1),
            r[2] == self.spec_limb(2),
            r[3] == self.spec_limb(3),
    {
        [self.l0, self.l1, self.l2, self.l3]
    }
}

pub(crate) proof fn lemma_limbs_value_low(x: u64)
    ensures
        limbs_value(x, 0, 0, 0) == x,
        limbs_value(x, 0, 0, 0) < modulus(),
{
    assert(limb_base() * (0 + limb_base() * (0 + limb_base() * 0)) == 0) by (nonlinear_arith);
}

/// Addition in `ark_bn254::Fr` (`Add` on `Fp`): the result is the integer sum
/// of the two representatives reduced modulo the field order.
#[verifier::external_body]
pub(crate) fn fe_add(a: &Fe, b: &Fe) -> (r: Fe)
    ensures
        r@ == fadd(a@, b@),
{
    let x = <ark_bn254::Fr as ark_ff::PrimeField>::from_bigint(ark_ff::BigInt([a.l0, a.l1, a.l2, a.l3])).unwrap();
    let y = <ark_bn254::Fr as ark_ff::PrimeField>::from_bigint(ark_ff::BigInt([b.l0, b.l1, b.l2, b.l3])).unwrap();
    let z = ark_ff::PrimeField::into_bigint(x + y).0;
    Fe { l0: z[0], l1: z[1], l2: z[2], l3: z[3] }
}

/// Subtraction in `ark_bn254::Fr` (`Sub` on `Fp`): the result is the integer
/// difference of the two representatives reduced modulo the field order.
#[verifier::external_body]
pub(crate) fn fe_sub(a: &Fe, b: &Fe) -> (r: Fe)
    ensures
        r@ == fsub(a@, b@),
{
    let x = <ark_bn254::Fr as ark_ff::PrimeField>::from_bigint(ark_ff::BigInt([a.l0, a.l1, a.l2, a.l3])).unwrap();
    let y = <ark_bn254::Fr as ark_ff::PrimeField>::from_bigint(ark_ff::BigInt([b.l0, b.l1, b.l2, b.l3])).unwrap();
    let z = ark_ff::PrimeField::into_bigint(x - y).0;
    Fe { l0: z[0], l1: z[1], l2: z[2], l3: z[3] }
}

/// Multiplication in `ark_bn254::Fr` (`Mul` on `Fp`): the result is the integer
/// product of the two representatives reduced modulo the field order.
#[verifier::external_body]
pub(crate) fn fe_mul(a: &Fe, b: &Fe) -> (r: Fe)
    ensures
        r@ == fmul(a@, b@),
{
    let x = <ark_bn254::Fr as ark_ff::PrimeField>::from_bigint(ark_ff::BigInt([a.l0, a.l1, a.l2, a.l3])).unwrap();
    let y = <ark_bn254::Fr as ark_ff::PrimeField>::from_bigint(ark_ff::BigInt([b.l0, b.l1, b.l2, b.l3])).unwrap();
    let z = ark_ff::PrimeField::into_bigint(x * y).0;
    Fe { l0: z[0], l1: z[1], l2: z[2], l3: z[3] }
}

/// The inverse of a non-zero element: `a^(p - 2)` modulo `p`.
pub open spec fn finv(a: nat) -> nat {
    (vstd::arithmetic::power::pow(a as int, (modulus() - 2) as nat) % (modulus() as int)) as nat
}

/// Inversion in `ark_bn254::Fr` (`Field::inverse`, which is `Some` exactly
/// for non-zero elements): the result is the multiplicative inverse, which
/// in a prime field is `a^(p - 2)`.
#[verifier::external_body]
pub(crate) fn fe_inv(a: &Fe) -> (r: Fe)
    requires
        a@ != 0,
    ensures
        r@ == finv(a@),
        fmul(a@, r@) == 1,
{
    let x = <ark_bn254::Fr as ark_ff::PrimeField>::from_bigint(ark_ff::BigInt([a.l0, a.l1, a.l2, a.l3])).unwrap();
    let z = ark_ff::PrimeField::into_bigint(ark_ff::Field::inverse(&x).unwrap()).0;
    Fe { l0: z[0], l1: z[1], l2: z[2], l3: z[3] }
}

/// Negation in `ark_bn254::Fr` (`Neg` on `Fp`): the result is the additive
/// inverse of the representative modulo the field order.
#[verifier::external_body]
pub(crate) fn fe_neg(a: &Fe) -> (r: Fe)
    ensures
        r@ == fneg(a@),
{
    let x = <ark_bn254::Fr as ark_ff::PrimeField>::from_bigint(ark_ff::BigInt([a.l0, a.l1, a.l2, a.l3])).unwrap();
    let z = ark_ff::PrimeField::into_bigint(-x).0;
    Fe { l0: z[0], l1: z[1], l2: z[2], l3: z[3] }
}

/// Two digits in base 2^64 compare as the pairs (high, low) compare.
proof fn lemma_digit_order(x1: nat, y1: nat, x2: nat, y2: nat)
    requires
        x1 < limb_base(),
        x2 < limb_base(),
    ensures
        (x1 + limb_base() * y1 < x2 + limb_base() * y2) <==> (y1 < y2 || (y1 == y2 && x1 < x2)),
        (x1 + limb_base() * y1 == x2 + limb_base() * y2) <==> (y1 == y2 && x1 == x2),
{
    let b = limb_base();
    if y1 < y2 {
        assert(b * y1 + b <= b * y2) by (nonlinear_arith)
            requires
                y1 < y2,
        ;
    } else if y2 < y1 {
        assert(b * y2 + b <= b * y1) by (nonlinear_arith)
            requires
                y2 < y1,
        ;
    }
}

/// The value of limbs determines the limbs, and limbs compare as their values.
proof fn lemma_limbs_order(a: Fe, b: Fe)
    ensures
        (a@ == b@) <==> (a == b),
        (a@ < b@) <==> (a.l3 < b.l3 || (a.l3 == b.l3 && (a.l2 < b.l2 || (a.l2 == b.l2 && (a.l1
            < b.l1 || (a.l1 == b.l1 && a.l0 < b.l0)))))),
{
    let ha2 = (a.l2 as nat) + limb_base() * (a.l3 as nat);
    let hb2 = (b.l2 as nat) + limb_base() * (b.l3 as nat);
    lemma_digit_order(a.l2 as nat, a.l3 as nat, b.l2 as nat, b.l3 as nat);
    let ha1 = (a.l1 as nat) + limb_base() * ha2;
    let hb1 = (b.l1 as nat) + limb_base() * hb2;
    lemma_digit_order(a.l1 as nat, ha2, b.l1 as nat, hb2);
    lemma_digit_order(a.l0 as nat, ha1, b.l0 as nat, hb1);
}

/// Four limbs are determined by the integer they stand for.
pub(crate) proof fn lemma_limbs_injective(a0: u64, a1: u64, a2: u64, a3: u64, b0: u64, b1: u64, b2: u64, b3: u64)
    ensures
        (limbs_value(a0, a1, a2, a3) == limbs_value(b0, b1, b2, b3)) <==> (a0 == b0 && a1 == b1 && a2 == b2 && a3 == b3),
{
    let ha2 = (a2 as nat) + limb_base() * (a3 as nat);
    let hb2 = (b2 as nat) + limb_base() * (b3 as nat);
    lemma_digit_order(a2 as nat, a3 as nat, b2 as nat, b3 as nat);
    let ha1 = (a1 as nat) + limb_base() * ha2;
    let hb1 = (b1 as nat) + limb_base() * hb2;
    lemma_digit_order(a1 as nat, ha2, b1 as nat, hb2);
    lemma_digit_order(a0 as nat, ha1, b0 as nat, hb1);
}

impl Fe {
    /// Whether the value of `self` is below the value of `other`; this is the
    /// order `ark_ff` gives field elements.
    pub fn lt(&self, other: &Fe) -> (r: bool)
        ensures
            r == (self@ < other@),
    {
        proof {
            lemma_limbs_order(*self, *other);
        }
        if self.l3 != other.l3 {
            self.l3 < other.l3
        } else if self.l2 != other.l2 {
            self.l2 < other.l2
        } else if self.l1 != other.l1 {
            self.l1 < other.l1
        } else {
            self.l0 < other.l0
        }
    }

    /// Whether two elements are equal.
    pub fn eq(&self, other: &Fe) -> (r: bool)
        ensures
            r == (self@ == other@),
            r == (*self == *other),
    {
        proof {
            lemma_limbs_order(*self, *other);
        }
        self.l0 == other.l0 && self.l1 == other.l1 && self.l2 == other.l2 && self.l3 == other.l3
    }
}

/// Elements are equal exactly when their values are.
pub proof fn lemma_view_injective(a: Fe, b: Fe)
    ensures
        (a@ == b@) <==> (a == b),
{
    lemma_limbs_order(a, b);
}

/// The element whose value is `v`.
pub open spec fn fe_of(v: nat) -> Fe {
    choose|x: Fe| x@ == v
}

/// Every element is the element of its value.
pub proof fn lemma_fe_of(x: Fe)
    ensures
        fe_of(x@) == x,
{
    let y = fe_of(x@);
    assert(y@ == x@);
    lemma_view_injective(x, y);
}

/// The signed integer an element stands for: its representative when that is
/// at most half the modulus, and the representative minus the modulus otherwise.
pub open spec fn signed_value(v: nat) -> int {
    if v <= (modulus() - 1) / 2 {
        v as int
    } else {
        v - modulus()
    }
}

/// The smallest and largest values of an `i128`.
pub open spec fn fits_i128(x: int) -> bool {
    -170141183460469231731687303715884105728int <= x <= 170141183460469231731687303715884105727int
}

/// Whether the value of an element is below `2^127`, and whether it equals
/// `2^127`.
fn compare_2_127(x: &Fe) -> (r: (bool, bool))
    ensures
        r.0 == (x@ < 170141183460469231731687303715884105728nat),
        r.1 == (x@ == 170141183460469231731687303715884105728nat),
{
    let two63: u64 = 9223372036854775808u64;
    let l0 = x.l0;
    let l1 = x.l1;
    let l2 = x.l2;
    let l3 = x.l3;
    proof {
        let b = limb_base();
        let v = limbs_value(l0, l1, l2, l3);
        assert(v == (l0 as nat) + b * (l1 as nat) + b * b * ((l2 as nat) + b * (l3 as nat))) by (nonlinear_arith)
            requires
                v == (l0 as nat) + b * ((l1 as nat) + b * ((l2 as nat) + b * (l3 as nat))),
        ;
        assert(170141183460469231731687303715884105728nat == b * (two63 as nat));
        if l2 != 0 || l3 != 0 {
            assert(b * b * ((l2 as nat) + b * (l3 as nat)) >= b * b) by (nonlinear_arith)
                requires
                    (l2 as nat) + b * (l3 as nat) >= 1,
            ;
        } else {
            assert(b * b * ((l2 as nat) + b * (l3 as nat)) == 0) by (nonlinear_arith)
                requires
                    l2 == 0,
                    l3 == 0,
            ;
            if l1 < two63 {
                assert((l0 as nat) + b * (l1 as nat) < b * (two63 as nat)) by (nonlinear_arith)
                    requires
                        l0 < b,
                        l1 < two63,
                ;
            } else if l1 == two63 {
            } else {
                assert(b * (l1 as nat) >= b * (two63 as nat) + b) by (nonlinear_arith)
                    requires
                        l1 > two63,
                ;
            }
        }
    }
    let small = l3 == 0 && l2 == 0 && l1 < two63;
    let exact = l3 == 0 && l2 == 0 && l1 == two63 && l0 == 0;
    (small, exact)
}

/// Whether the signed value of an element fits in an `i128`, which is what
/// `fr_to_int` asks of its argument.
pub fn fr_fits_i128(x: &Fe) -> (r: bool)
    ensures
        r == fits_i128(signed_value(x@)),
{
    proof {
        use_type_invariant(x);
    }
    let (small, _) = compare_2_127(x);
    let n = fe_neg(x);
    let (nsmall, nexact) = compare_2_127(&n);
    proof {
        if x@ == 0 {
            assert(n@ == 0) by {
                assert((0 - 0int) % (modulus() as int) == 0);
            }
        } else {
            assert(n@ == modulus() - x@) by {
                vstd::arithmetic::div_mod::lemma_mod_add_multiples_vanish(-(x@ as int), modulus() as int);
                vstd::arithmetic::div_mod::lemma_small_mod((modulus() - x@) as nat, modulus());
            }
        }
    }
    small || nsmall || nexact
}

/// The signed integer that a field element stands for, where elements above
/// half the modulus are negative numbers.
pub fn fr_to_int(x: &Fe) -> (r: i128)
    requires
        fits_i128(signed_value(x@)),
    ensures
        r as int == signed_value(x@),
{
    proof {
        use_type_invariant(x);
    }
    let two63: u64 = 9223372036854775808u64;
    if x.l3 == 0 && x.l2 == 0 && x.l1 < two63 {
        proof {
            assert(x@ == (x.l0 as nat) + limb_base() * (x.l1 as nat)) by (nonlinear_arith)
                requires
                    x@ == limbs_value(x.l0, x.l1, x.l2, x.l3),
                    x.l3 == 0,
                    x.l2 == 0,
            ;
            assert((x.l0 as nat) + limb_base() * (x.l1 as nat) < 170141183460469231731687303715884105728nat)
                by (nonlinear_arith)
                requires
                    x.l1 < 9223372036854775808u64,
                    x.l0 < limb_base(),
            ;
        }
        (x.l1 as i128) * 18446744073709551616i128 + (x.l0 as i128)
    } else {
        let n = fe_neg(x);
        proof {
            use_type_invariant(&n);
            let lo = limbs_value(x.l0, x.l1, 0, 0);
            assert(lo == (x.l0 as nat) + limb_base() * (x.l1 as nat)) by (nonlinear_arith)
                requires
                    lo == limbs_value(x.l0, x.l1, 0, 0),
            ;
            if x@ < 170141183460469231731687303715884105728nat {
                assert(x.l3 == 0 && x.l2 == 0 && x.l1 < two63) by (nonlinear_arith)
                    requires
                        x@ == limbs_value(x.l0, x.l1, x.l2, x.l3),
                        x@ < 170141183460469231731687303715884105728nat,
                        two63 == 9223372036854775808u64,
                ;
            }
            assert(n@ == modulus() - x@);
            assert(n@ <= 170141183460469231731687303715884105728nat);
            assert(n.l3 == 0 && n.l2 == 0 && (n.l1 < two63 || (n.l1 == two63 && n.l0 == 0)))
                by (nonlinear_arith)
                requires
                    n@ == limbs_value(n.l0, n.l1, n.l2, n.l3),
                    n@ <= 170141183460469231731687303715884105728nat,
                    two63 == 9223372036854775808u64,
            ;
            assert(n@ == (n.l0 as nat) + limb_base() * (n.l1 as nat)) by (nonlinear_arith)
                requires
                    n@ == limbs_value(n.l0, n.l1, n.l2, n.l3),
                    n.l3 == 0,
                    n.l2 == 0,
            ;
        }
        (-(n.l1 as i128)) * 18446744073709551616i128 - (n.l0 as i128)
    }
}

/// The element at position `i` of the evaluation domain that
/// `ark_poly::GeneralEvaluationDomain` builds for `n` coefficients: the
/// subgroup of size `2^k`, the smallest power of two at least `n` (one for
/// zero), is generated by `w = 5^((r - 1) / 2^k)`, 5 being the field's
/// multiplicative generator, and its `i`-th element is `w^i`.
pub open spec fn domain_element(n: nat, i: nat) -> nat {
    fpow(fpow(5, ((modulus() - 1) as nat) / next_pow_spec(n)), i)
}

/// `GeneralEvaluationDomain::<Fr>::new(n)` followed by `element(i)`: for
/// the BN254 scalar field the domain is a radix-2 one for sizes up to 2^28,
/// its generator `TWO_ADIC_ROOT_OF_UNITY = 5^((r - 1) / 2^28)` squared
/// `28 - k` times for a domain of size `2^k`, and `element(i)` its `i`-th
/// power; the contract states that value, `domain_element`, and that it is
/// a root of unity of the domain's size (the generator has that order).
#[verifier::external_body]
pub(crate) fn domain_element_at(n: usize, i: usize) -> (r: Fe)
    requires
        n <= 268435456,
    ensures
        r@ == domain_element(n as nat, i as nat),
        crate::basic_block::transpose::fpow(r@, next_pow_spec(n as nat)) == 1,
{
    let d = <ark_poly::GeneralEvaluationDomain<ark_bn254::Fr> as ark_poly::EvaluationDomain<ark_bn254::Fr>>::new(n).unwrap();
    let z = ark_ff::PrimeField::into_bigint(ark_poly::EvaluationDomain::element(&d, i)).0;
    Fe { l0: z[0], l1: z[1], l2: z[2], l3: z[3] }
}

/// The values of a sequence of field elements.
pub open spec fn fe_views(s: Seq<Fe>) -> Seq<nat> {
    s.map_values(|x: Fe| x@)
}

/// The coefficients, lowest first, that `GeneralEvaluationDomain::ifft`
/// gives for the evaluations `values` over the domain built for
/// `values.len()` points.
pub uninterp spec fn interpolate(values: Seq<nat>) -> Seq<nat>;

/// `GeneralEvaluationDomain::<Fr>::new(values.len())` followed by `ifft`:
/// the coefficients of the polynomial of degree below the domain size that
/// takes the given values (padded with zeros) on the domain; an empty
/// vector has the domain of size one. The contract names the coefficients
/// and states what the source shows of them: there are as many as the
/// domain's size, the smallest power of two at least `values.len()`, and
/// they evaluate to the padded values at the domain's elements.
#[verifier::external_body]
pub(crate) fn interpolate_at(values: &Vec<Fe>) -> (r: Vec<Fe>)
    requires
        values@.len() <= 268435456,
    ensures
        fe_views(r@) == interpolate(fe_views(values@)),
        r@.len() == crate::tensor::next_pow_spec(values@.len()),
        forall|j: int|
            0 <= j < r@.len() ==> crate::poly::poly_eval(fe_views(r@), #[trigger] domain_element(values@.len() as nat, j as nat))
                == if j < values@.len() {
                values@[j]@
            } else {
                0
            },
{
    let d = <ark_poly::GeneralEvaluationDomain<ark_bn254::Fr> as ark_poly::EvaluationDomain<ark_bn254::Fr>>::new(values.len()).unwrap();
    let c = |x: &Fe| <ark_bn254::Fr as ark_ff::PrimeField>::from_bigint(ark_ff::BigInt(x.limbs())).unwrap();
    let v: Vec<ark_bn254::Fr> = values.iter().map(c).collect();
    let e = ark_poly::EvaluationDomain::ifft(&d, &v);
    e.iter().map(|x| Fe::from_limbs(ark_ff::PrimeField::into_bigint(*x).0)).collect()
}

/// `GeneralEvaluationDomain::<Fr>::new(n)` followed by `fft` of the
/// coefficients `c`: one value per element of the domain (whose size is the
/// smallest power of two at least `n`), in order, each the value there of
/// the polynomial made of the first coefficients, as many as the domain's
/// size (`fft` pads a shorter vector with zeros and cuts a longer one to
/// that size).
#[verifier::external_body]
pub(crate) fn evaluate_on_domain_at(c: &Vec<Fe>, n: usize) -> (r: Vec<Fe>)
    requires
        n <= 268435456,
    ensures
        r@.len() == crate::tensor::next_pow_spec(n as nat),
        forall|j: int|
            0 <= j < r@.len() ==> (#[trigger] r@[j])@ == crate::poly::poly_eval(
                fe_views(c@).take(
                    if c@.len() < crate::tensor::next_pow_spec(n as nat) {
                        c@.len() as int
                    } else {
                        crate::tensor::next_pow_spec(n as nat) as int
                    },
                ),
                domain_element(n as nat, j as nat),
            ),
{
    let d = <ark_poly::GeneralEvaluationDomain<ark_bn254::Fr> as ark_poly::EvaluationDomain<ark_bn254::Fr>>::new(n).unwrap();
    let k = |x: &Fe| <ark_bn254::Fr as ark_ff::PrimeField>::from_bigint(ark_ff::BigInt(x.limbs())).unwrap();
    let v: Vec<ark_bn254::Fr> = c.iter().map(k).collect();
    let e = ark_poly::EvaluationDomain::fft(&d, &v);
    e.iter().map(|x| Fe::from_limbs(ark_ff::PrimeField::into_bigint(*x).0)).collect()
}

} // verus!

verus! {

/// Reading back the element that a signed integer stands for gives the
/// integer, for integers no larger in size than half the modulus.
pub proof fn signed_value_of_int(x: int)
    requires
        -((modulus() - 1) / 2) <= x <= (modulus() - 1) / 2,
    ensures
        signed_value(int_to_field(x)) == x,
{
    let m = modulus() as int;
    if x >= 0 {
        vstd::arithmetic::div_mod::lemma_fundamental_div_mod_converse(x, m, 0, x);
    } else {
        vstd::arithmetic::div_mod::lemma_fundamental_div_mod_converse(x, m, -1, m + x);
    }
}

/// `fr_to_int` undoes `Fe::from_i64`: the element of an `i64` reads back as
/// that `i64` (and is accepted by `fr_to_int`).
pub proof fn fr_to_int_undoes_from_i64(x: i64)
    ensures
        fits_i128(signed_value(int_to_field(x as int))),
        signed_value(int_to_field(x as int)) == x,
{
    signed_value_of_int(x as int);
}

} // verus!
