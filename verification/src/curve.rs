//! Points of the BN254 curve over its base field, held as plain projective
//! coordinates, with the group operations of `ark-bn254`.
use crate::field::{fe_views, lemma_limbs_injective, lemma_limbs_value_low, limbs_value, Fe};
use ark_bn254::{Fq as BaseFq, Fq12, Fq2, G2Projective};
use ark_ff::{BigInt, CyclotomicMultSubgroup, Field, PrimeField};
use vstd::prelude::*;

verus! {

/// The order of the BN254 base field.
pub open spec fn base_modulus() -> nat {
    21888242871839275222246405745257275088696311157297823662689037894645226208583nat
}

/// A BN254 base field element, held as its canonical representative.
#[derive(Clone, Copy, Debug, PartialEq, Eq, Structural)]
pub struct Fq {
    l0: u64,
    l1: u64,
    l2: u64,
    l3: u64,
}

impl View for Fq {
    type V = nat;

    closed spec fn view(&self) -> nat {
        limbs_value(self.l0, self.l1, self.l2, self.l3)
    }
}

impl Fq {
    /// The representative is always reduced below the modulus.
    #[verifier::type_invariant]
    closed spec fn canonical(self) -> bool {
        limbs_value(self.l0, self.l1, self.l2, self.l3) < base_modulus()
    }

    /// The element whose value is `x`.
    pub fn from_u64(x: u64) -> (r: Fq)
        ensures
            r@ == x,
    {
        proof {
            lemma_limbs_value_low(x);
        }
        Fq { l0: x, l1: 0, l2: 0, l3: 0 }
    }

    /// The element whose canonical representative has these limbs.
    pub(crate) fn from_limbs(l: [u64; 4]) -> (r: Fq)
        requires
            limbs_value(l[0], l[1], l[2], l[3]) < base_modulus(),
        ensures
            r@ == limbs_value(l[0], l[1], l[2], l[3]),
    {
        Fq { l0: l[0], l1: l[1], l2: l[2], l3: l[3] }
    }

    /// The limbs of the canonical representative, least significant first.
    pub fn limbs(&self) -> (r: [u64; 4])
        ensures
            limbs_value(r[0], r[1], r[2], r[3]) == self@,
    {
        [self.l0, self.l1, self.l2, self.l3]
    }

    /// Elements are equal exactly when their values are.
    pub proof fn lemma_view_injective(a: Fq, b: Fq)
        ensures
            (a@ == b@) <==> (a == b),
    {
        lemma_limbs_injective(a.l0, a.l1, a.l2, a.l3, b.l0, b.l1, b.l2, b.l3);
    }
}

/// A point of the BN254 curve in projective (Jacobian) coordinates `(x, y,
/// z)`, as `ark_bn254::G1Projective` holds it.
#[derive(Clone, Copy, Debug, PartialEq, Eq, Structural)]
pub struct G1 {
    pub x: Fq,
    pub y: Fq,
    pub z: Fq,
}

impl View for G1 {
    type V = (nat, nat, nat);

    open spec fn view(&self) -> (nat, nat, nat) {
        (self.x@, self.y@, self.z@)
    }
}

/// A point of the BN254 curve in affine coordinates, or the point at
/// infinity, as `ark_bn254::G1Affine` holds it.
#[derive(Clone, Copy, Debug, PartialEq, Eq, Structural)]
pub struct G1Affine {
    pub x: Fq,
    pub y: Fq,
    pub infinity: bool,
}

impl View for G1Affine {
    type V = (nat, nat, bool);

    open spec fn view(&self) -> (nat, nat, bool) {
        (self.x@, self.y@, self.infinity)
    }
}

/// The coordinates `Projective::add` gives for two points.
pub uninterp spec fn g1_add(a: (nat, nat, nat), b: (nat, nat, nat)) -> (nat, nat, nat);

/// The coordinates `Projective * Fr` gives for a point and a scalar.
pub uninterp spec fn g1_scale(a: (nat, nat, nat), k: nat) -> (nat, nat, nat);

/// The affine point `Projective::into_affine` gives for a point.
pub uninterp spec fn g1_affine(a: (nat, nat, nat)) -> (nat, nat, bool);

/// The coordinates of the identity: `(1, 1, 0)`.
pub open spec fn g1_zero_view() -> (nat, nat, nat) {
    (1, 1, 0)
}

impl G1 {
    /// The identity point, which `ark_ec`'s `Projective::zero` writes as
    /// `(1, 1, 0)`.
    pub fn zero() -> (r: G1)
        ensures
            r@ == g1_zero_view(),
    {
        G1 { x: Fq::from_u64(1), y: Fq::from_u64(1), z: Fq::from_u64(0) }
    }
}

/// `ark_bn254::G1Projective` addition (`Add` on `Projective`, the
/// complete formulas of `ark_ec`): the contract names the coordinates of the
/// sum and says nothing more of them.
#[verifier::external_body]
pub(crate) fn g1_add_at(a: &G1, b: &G1) -> (r: G1)
    ensures
        r@ == g1_add(a@, b@),
{
    let c = |q: &Fq| BaseFq::from_bigint(BigInt(q.limbs())).unwrap();
    let p = |g: &G1| ark_bn254::G1Projective::new_unchecked(c(&g.x), c(&g.y), c(&g.z));
    let s = p(a) + p(b);
    let d = |v: BaseFq| Fq::from_limbs(v.into_bigint().0);
    G1 { x: d(s.x), y: d(s.y), z: d(s.z) }
}

/// `ark_bn254::G1Projective` multiplication by a scalar (`Mul<Fr>` on
/// `Projective`): the contract names the coordinates of the product and
/// says nothing more of them.
#[verifier::external_body]
pub(crate) fn g1_scale_at(a: &G1, k: &Fe) -> (r: G1)
    ensures
        r@ == g1_scale(a@, k@),
{
    let c = |q: &Fq| BaseFq::from_bigint(BigInt(q.limbs())).unwrap();
    let f = ark_bn254::Fr::from_bigint(BigInt(k.limbs())).unwrap();
    let s = ark_bn254::G1Projective::new_unchecked(c(&a.x), c(&a.y), c(&a.z)) * f;
    let d = |v: BaseFq| Fq::from_limbs(v.into_bigint().0);
    G1 { x: d(s.x), y: d(s.y), z: d(s.z) }
}

/// The coordinates `Projective::sub` gives for two points.
pub uninterp spec fn g1_sub(a: (nat, nat, nat), b: (nat, nat, nat)) -> (nat, nat, nat);

/// `ark_bn254::G1Projective` subtraction (`Sub` on `Projective`): the
/// contract names the coordinates of the difference and says nothing more
/// of them.
#[verifier::external_body]
pub(crate) fn g1_sub_at(a: &G1, b: &G1) -> (r: G1)
    ensures
        r@ == g1_sub(a@, b@),
{
    let c = |q: &Fq| BaseFq::from_bigint(BigInt(q.limbs())).unwrap();
    let p = |g: &G1| ark_bn254::G1Projective::new_unchecked(c(&g.x), c(&g.y), c(&g.z));
    let s = p(a) - p(b);
    let d = |v: BaseFq| Fq::from_limbs(v.into_bigint().0);
    G1 { x: d(s.x), y: d(s.y), z: d(s.z) }
}

/// `ark_bn254::G1Affine::from` a projective point (what `into_affine` of
/// `CurveGroup` does): the contract names the affine point; of it, it says
/// what the source shows for `z = 0` (the identity `(0, 0, infinity)`) and
/// `z = 1` (the coordinates kept), and leaves the division by `z` unsaid.
#[verifier::external_body]
pub(crate) fn g1_affine_at(a: &G1) -> (r: G1Affine)
    ensures
        r@ == g1_affine(a@),
        a@.2 == 0 ==> r@ == (0nat, 0nat, true),
        a@.2 == 1 ==> r@ == (a@.0, a@.1, false),
{
    let c = |q: &Fq| BaseFq::from_bigint(BigInt(q.limbs())).unwrap();
    let s = ark_bn254::G1Affine::from(ark_bn254::G1Projective::new_unchecked(c(&a.x), c(&a.y), c(&a.z)));
    let d = |v: BaseFq| Fq::from_limbs(v.into_bigint().0);
    G1Affine { x: d(s.x), y: d(s.y), infinity: s.infinity }
}

/// Whether two projective triples name the same point, as `PartialEq` on
/// `ark_ec`'s `Projective` decides: both at infinity (`z = 0`), or neither
/// and `x z'^2 = x' z^2`, `y z'^3 = y' z^3` in the base field.
pub open spec fn g1_same_point(a: (nat, nat, nat), b: (nat, nat, nat)) -> bool {
    let q = base_modulus();
    if a.2 == 0 {
        b.2 == 0
    } else if b.2 == 0 {
        false
    } else {
        &&& (a.0 * (b.2 * b.2)) % q == (b.0 * (a.2 * a.2)) % q
        &&& (a.1 * (b.2 * b.2 * b.2)) % q == (b.1 * (a.2 * a.2 * a.2)) % q
    }
}

/// `PartialEq` on `ark_bn254::G1Projective`: the contract is the comparison
/// of the source, `g1_same_point`.
#[verifier::external_body]
pub(crate) fn g1_eq_at(a: &G1, b: &G1) -> (r: bool)
    ensures
        r == g1_same_point(a@, b@),
{
    let c = |q: &Fq| BaseFq::from_bigint(BigInt(q.limbs())).unwrap();
    let p = |g: &G1| ark_bn254::G1Projective::new_unchecked(c(&g.x), c(&g.y), c(&g.z));
    p(a) == p(b)
}

/// The affine point with its `y` negated in the base field, as `Neg` on
/// `ark_ec`'s `Affine` writes it (the point at infinity keeps `y = 0`).
pub open spec fn g1_neg_view(a: (nat, nat, bool)) -> (nat, nat, bool) {
    (a.0, if a.1 == 0 { 0 } else { (base_modulus() - a.1) as nat }, a.2)
}

/// `Neg` on `ark_bn254::G1Affine`: `y` replaced by its negation in the base
/// field, which the contract states exactly.
#[verifier::external_body]
pub(crate) fn g1_affine_neg_at(a: &G1Affine) -> (r: G1Affine)
    ensures
        r@ == g1_neg_view(a@),
{
    let c = |q: &Fq| BaseFq::from_bigint(BigInt(q.limbs())).unwrap();
    let s = -ark_bn254::G1Affine { x: c(&a.x), y: c(&a.y), infinity: a.infinity };
    let d = |v: BaseFq| Fq::from_limbs(v.into_bigint().0);
    G1Affine { x: d(s.x), y: d(s.y), infinity: s.infinity }
}

/// The projective point with its `y` negated in the base field, as `Neg` on
/// `ark_ec`'s `Projective` writes it.
pub open spec fn g1_neg_proj(a: (nat, nat, nat)) -> (nat, nat, nat) {
    (a.0, if a.1 == 0 { 0 } else { (base_modulus() - a.1) as nat }, a.2)
}

/// `Neg` on `ark_bn254::G1Projective`: `y` replaced by its negation in the
/// base field, which the contract states exactly.
#[verifier::external_body]
pub(crate) fn g1_neg_at(a: &G1) -> (r: G1)
    ensures
        r@ == g1_neg_proj(a@),
{
    let c = |q: &Fq| BaseFq::from_bigint(BigInt(q.limbs())).unwrap();
    let s = -ark_bn254::G1Projective::new_unchecked(c(&a.x), c(&a.y), c(&a.z));
    let d = |v: BaseFq| Fq::from_limbs(v.into_bigint().0);
    G1 { x: d(s.x), y: d(s.y), z: d(s.z) }
}

/// The affine point of the twist with its `y` negated, as `Neg` on
/// `ark_ec`'s `Affine` writes it: each base-field component of `y` is
/// negated.
pub open spec fn g2_neg_view(a: ((nat, nat), (nat, nat), bool)) -> ((nat, nat), (nat, nat), bool) {
    let q = base_modulus();
    let neg = |c: nat| if c == 0 { 0 } else { (q - c) as nat };
    (a.0, (neg(a.1.0), neg(a.1.1)), a.2)
}

/// `Neg` on `ark_bn254::G2Affine`: both components of `y` replaced by their
/// negations in the base field, which the contract states exactly.
#[verifier::external_body]
pub(crate) fn g2_affine_neg_at(a: &G2Affine) -> (r: G2Affine)
    ensures
        r@ == g2_neg_view(a@),
{
    let h = |c: &(Fq, Fq)| Fq2::new(BaseFq::from_bigint(BigInt(c.0.limbs())).unwrap(), BaseFq::from_bigint(BigInt(c.1.limbs())).unwrap());
    let s = -ark_bn254::G2Affine { x: h(&a.x), y: h(&a.y), infinity: a.infinity };
    let d = |v: Fq2| (Fq::from_limbs(v.c0.into_bigint().0), Fq::from_limbs(v.c1.into_bigint().0));
    G2Affine { x: d(s.x), y: d(s.y), infinity: s.infinity }
}

/// The projective sum of the first `k` points, added in order from the
/// identity.
pub open spec fn g1_sum_upto(s: Seq<(nat, nat, nat)>, k: nat) -> (nat, nat, nat)
    decreases k,
{
    if k == 0 {
        g1_zero_view()
    } else {
        g1_add(g1_sum_upto(s, (k - 1) as nat), s[k - 1])
    }
}

/// A point of the BN254 twist over the quadratic extension of the base
/// field, in projective coordinates; each coordinate is `c0 + c1 u`, as
/// `ark_bn254::G2Projective` holds it.
#[derive(Clone, Copy, Debug)]
pub struct G2 {
    pub x: (Fq, Fq),
    pub y: (Fq, Fq),
    pub z: (Fq, Fq),
}

impl View for G2 {
    type V = ((nat, nat), (nat, nat), (nat, nat));

    open spec fn view(&self) -> ((nat, nat), (nat, nat), (nat, nat)) {
        ((self.x.0@, self.x.1@), (self.y.0@, self.y.1@), (self.z.0@, self.z.1@))
    }
}

/// The coordinates `Projective::add` gives for two points of the twist.
pub uninterp spec fn g2_add(a: ((nat, nat), (nat, nat), (nat, nat)), b: ((nat, nat), (nat, nat), (nat, nat))) -> (
    (nat, nat),
    (nat, nat),
    (nat, nat),
);

/// The coordinates `Projective::sub` gives for two points of the twist.
pub uninterp spec fn g2_sub(a: ((nat, nat), (nat, nat), (nat, nat)), b: ((nat, nat), (nat, nat), (nat, nat))) -> (
    (nat, nat),
    (nat, nat),
    (nat, nat),
);

/// `ark_bn254::G2Projective` subtraction (`Sub` on `Projective`): the
/// contract names the coordinates of the difference and says nothing more
/// of them.
#[verifier::external_body]
pub(crate) fn g2_sub_at(a: &G2, b: &G2) -> (r: G2)
    ensures
        r@ == g2_sub(a@, b@),
{
    let h = |c: &(Fq, Fq)| Fq2::new(BaseFq::from_bigint(BigInt(c.0.limbs())).unwrap(), BaseFq::from_bigint(BigInt(c.1.limbs())).unwrap());
    let p = |g: &G2| G2Projective::new_unchecked(h(&g.x), h(&g.y), h(&g.z));
    let s = p(a) - p(b);
    let d = |v: Fq2| (Fq::from_limbs(v.c0.into_bigint().0), Fq::from_limbs(v.c1.into_bigint().0));
    G2 { x: d(s.x), y: d(s.y), z: d(s.z) }
}

/// The coordinates `Projective * Fr` gives for a point of the twist and a
/// scalar.
pub uninterp spec fn g2_scale(a: ((nat, nat), (nat, nat), (nat, nat)), k: nat) -> ((nat, nat), (nat, nat), (nat, nat));

/// `ark_bn254::G2Projective` addition (`Add` on `Projective`): the contract
/// names the coordinates of the sum and says nothing more of them.
#[verifier::external_body]
pub(crate) fn g2_add_at(a: &G2, b: &G2) -> (r: G2)
    ensures
        r@ == g2_add(a@, b@),
{
    let h = |c: &(Fq, Fq)| Fq2::new(BaseFq::from_bigint(BigInt(c.0.limbs())).unwrap(), BaseFq::from_bigint(BigInt(c.1.limbs())).unwrap());
    let p = |g: &G2| G2Projective::new_unchecked(h(&g.x), h(&g.y), h(&g.z));
    let s = p(a) + p(b);
    let d = |v: Fq2| (Fq::from_limbs(v.c0.into_bigint().0), Fq::from_limbs(v.c1.into_bigint().0));
    G2 { x: d(s.x), y: d(s.y), z: d(s.z) }
}

/// `ark_bn254::G2Projective` multiplication by a scalar (`Mul<Fr>` on
/// `Projective`): the contract names the coordinates of the product and
/// says nothing more of them.
#[verifier::external_body]
pub(crate) fn g2_scale_at(a: &G2, k: &Fe) -> (r: G2)
    ensures
        r@ == g2_scale(a@, k@),
{
    let h = |c: &(Fq, Fq)| Fq2::new(BaseFq::from_bigint(BigInt(c.0.limbs())).unwrap(), BaseFq::from_bigint(BigInt(c.1.limbs())).unwrap());
    let f = ark_bn254::Fr::from_bigint(BigInt(k.limbs())).unwrap();
    let s = G2Projective::new_unchecked(h(&a.x), h(&a.y), h(&a.z)) * f;
    let d = |v: Fq2| (Fq::from_limbs(v.c0.into_bigint().0), Fq::from_limbs(v.c1.into_bigint().0));
    G2 { x: d(s.x), y: d(s.y), z: d(s.z) }
}

/// The projective point of an affine one, as `ark_ec`'s `From<Affine>` for
/// `Projective` writes it: the identity for the point at infinity, and
/// `(x, y, 1)` otherwise.
pub open spec fn g1_proj_view(a: (nat, nat, bool)) -> (nat, nat, nat) {
    if a.2 {
        g1_zero_view()
    } else {
        (a.0, a.1, 1)
    }
}

impl G1Affine {
    /// The projective form of the point.
    pub fn to_projective(&self) -> (r: G1)
        ensures
            r@ == g1_proj_view(self@),
    {
        if self.infinity {
            G1::zero()
        } else {
            G1 { x: self.x, y: self.y, z: Fq::from_u64(1) }
        }
    }
}

impl G1Affine {
    /// Whether two affine points have the same coordinates.
    pub fn same(&self, other: &G1Affine) -> (r: bool)
        ensures
            r == (self@ == other@),
    {
        proof {
            Fq::lemma_view_injective(self.x, other.x);
            Fq::lemma_view_injective(self.y, other.y);
        }
        self.x == other.x && self.y == other.y && self.infinity == other.infinity
    }
}

/// A point of the BN254 twist in affine coordinates, or the point at
/// infinity, as `ark_bn254::G2Affine` holds it.
#[derive(Clone, Copy, Debug)]
pub struct G2Affine {
    pub x: (Fq, Fq),
    pub y: (Fq, Fq),
    pub infinity: bool,
}

impl View for G2Affine {
    type V = ((nat, nat), (nat, nat), bool);

    open spec fn view(&self) -> ((nat, nat), (nat, nat), bool) {
        ((self.x.0@, self.x.1@), (self.y.0@, self.y.1@), self.infinity)
    }
}

/// The projective point of an affine point of the twist: the identity
/// `((1, 0), (1, 0), (0, 0))` at infinity, and `(x, y, (1, 0))` otherwise.
pub open spec fn g2_proj_view(a: ((nat, nat), (nat, nat), bool)) -> ((nat, nat), (nat, nat), (nat, nat)) {
    if a.2 {
        ((1, 0), (1, 0), (0, 0))
    } else {
        (a.0, a.1, (1, 0))
    }
}

/// The affine point `Projective::into_affine` gives for a point of the
/// twist.
pub uninterp spec fn g2_affine(a: ((nat, nat), (nat, nat), (nat, nat))) -> ((nat, nat), (nat, nat), bool);

impl G2Affine {
    /// The projective form of the point.
    pub fn to_projective(&self) -> (r: G2)
        ensures
            r@ == g2_proj_view(self@),
    {
        if self.infinity {
            G2 { x: (Fq::from_u64(1), Fq::from_u64(0)), y: (Fq::from_u64(1), Fq::from_u64(0)), z: (Fq::from_u64(0), Fq::from_u64(0)) }
        } else {
            G2 { x: self.x, y: self.y, z: (Fq::from_u64(1), Fq::from_u64(0)) }
        }
    }

    /// Whether two affine points have the same coordinates.
    pub fn same(&self, other: &G2Affine) -> (r: bool)
        ensures
            r == (self@ == other@),
    {
        proof {
            Fq::lemma_view_injective(self.x.0, other.x.0);
            Fq::lemma_view_injective(self.x.1, other.x.1);
            Fq::lemma_view_injective(self.y.0, other.y.0);
            Fq::lemma_view_injective(self.y.1, other.y.1);
        }
        self.x.0 == other.x.0 && self.x.1 == other.x.1 && self.y.0 == other.y.0 && self.y.1 == other.y.1
            && self.infinity == other.infinity
    }
}

/// `ark_bn254::G2Affine::from` a projective point of the twist (what
/// `into_affine` does): the contract names the affine point and says nothing
/// more of it.
#[verifier::external_body]
pub(crate) fn g2_affine_at(a: &G2) -> (r: G2Affine)
    ensures
        r@ == g2_affine(a@),
{
    let h = |c: &(Fq, Fq)| Fq2::new(BaseFq::from_bigint(BigInt(c.0.limbs())).unwrap(), BaseFq::from_bigint(BigInt(c.1.limbs())).unwrap());
    let s = ark_bn254::G2Affine::from(G2Projective::new_unchecked(h(&a.x), h(&a.y), h(&a.z)));
    let d = |v: Fq2| (Fq::from_limbs(v.c0.into_bigint().0), Fq::from_limbs(v.c1.into_bigint().0));
    G2Affine { x: d(s.x), y: d(s.y), infinity: s.infinity }
}

/// The multi-scalar multiplication of the first `k` bases by the first `k`
/// scalars: the identity, then each `scalar * base` added in order.
pub open spec fn msm_upto(bases: Seq<(nat, nat, nat)>, scalars: Seq<nat>, k: nat) -> (nat, nat, nat)
    decreases k,
{
    if k == 0 {
        g1_zero_view()
    } else {
        g1_add(msm_upto(bases, scalars, (k - 1) as nat), g1_scale(bases[k - 1], scalars[k - 1]))
    }
}

/// The views of a sequence of points.
pub open spec fn g1_views(s: Seq<G1>) -> Seq<(nat, nat, nat)> {
    s.map_values(|p: G1| p@)
}

/// The commitment to `scalars` under the first bases: `sum scalars[i] *
/// bases[i]`, added in order from the identity.
pub fn msm(bases: &Vec<G1>, scalars: &Vec<Fe>) -> (r: G1)
    requires
        scalars.len() <= bases.len(),
    ensures
        r@ == msm_upto(g1_views(bases@), fe_views(scalars@), scalars@.len() as nat),
{
    let mut acc = G1::zero();
    let mut k: usize = 0;
    while k < scalars.len()
        invariant
            scalars.len() <= bases.len(),
            k <= scalars.len(),
            acc@ == msm_upto(g1_views(bases@), fe_views(scalars@), k as nat),
        decreases scalars.len() - k,
    {
        let t = g1_scale_at(&bases[k], &scalars[k]);
        acc = g1_add_at(&acc, &t);
        k = k + 1;
    }
    acc
}

/// An element of the pairing target group, held as its twelve coordinates
/// over the base field, in the order `ark_bn254::Fq12` lists them
/// (`to_base_prime_field_elements`).
#[derive(Clone, Copy, Debug)]
pub struct Gt {
    pub c: [Fq; 12],
}

impl View for Gt {
    type V = Seq<nat>;

    open spec fn view(&self) -> Seq<nat> {
        self.c@.map_values(|x: Fq| x@)
    }
}

/// The coordinates that the sum of two target-group elements has, as
/// `PairingOutput::add` computes it (the product in `Fq12`).
pub uninterp spec fn gt_add(a: Seq<nat>, b: Seq<nat>) -> Seq<nat>;

/// The coordinates that a target-group element times a scalar has, as
/// `PairingOutput::mul` computes it (a cyclotomic power in `Fq12`).
pub uninterp spec fn gt_scale(a: Seq<nat>, k: nat) -> Seq<nat>;

/// `PairingOutput<Bn254>` addition, which `ark-ec` computes as the product
/// of the two `Fq12` elements: the contract names the coordinates of the
/// sum and says nothing more of them.
#[verifier::external_body]
pub(crate) fn gt_add_at(a: &Gt, b: &Gt) -> (r: Gt)
    ensures
        r@ == gt_add(a@, b@),
{
    let t = |g: &Gt| Fq12::from_base_prime_field_elems(&g.c.map(|x| BaseFq::from_bigint(BigInt(x.limbs())).unwrap())).unwrap();
    let s = t(a) * t(b);
    let v: Vec<Fq> = s.to_base_prime_field_elements().map(|x| Fq::from_limbs(x.into_bigint().0)).collect();
    Gt { c: v.try_into().unwrap() }
}

/// `PairingOutput<Bn254>` multiplication by a scalar, which `ark-ec`
/// computes as `cyclotomic_exp` of the `Fq12` element by the scalar's
/// canonical integer: the contract names the coordinates of the product and
/// says nothing more of them.
#[verifier::external_body]
pub(crate) fn gt_scale_at(a: &Gt, k: &Fe) -> (r: Gt)
    ensures
        r@ == gt_scale(a@, k@),
{
    let e = Fq12::from_base_prime_field_elems(&a.c.map(|x| BaseFq::from_bigint(BigInt(x.limbs())).unwrap())).unwrap();
    let s = e.cyclotomic_exp(ark_bn254::Fr::from_bigint(BigInt(k.limbs())).unwrap().into_bigint());
    let v: Vec<Fq> = s.to_base_prime_field_elements().map(|x| Fq::from_limbs(x.into_bigint().0)).collect();
    Gt { c: v.try_into().unwrap() }
}

} // verus!
