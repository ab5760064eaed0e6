//! The grand products of the permutation arguments (the copy constraint's,
//! from polynomials, and the concatenation's, from values on the domain):
//! the running product of the ratios between the identity permutation and
//! the permutation over the evaluation domain, its blinded polynomial and
//! commitment, and the blinded commitments of the permuted vectors.
use super::concat_check::{affine_views, projs, to_projs};
use super::data::trim;
use super::prover::{msm_zip, msm_zip_exec, trim_exec};
use super::alternating::calc_pow;
use super::transpose::fpow;
use crate::curve::{g1_add, g1_add_at, g1_scale, g1_scale_at, g1_sub, g1_sub_at, g1_views, g1_zero_view, G1Affine, G1};
use crate::field::{
    domain_element, domain_element_at, fadd, fe_add, fe_inv, fe_mul, fe_neg, fe_sub, fe_views, finv, fmul, fneg, fsub,
    interpolate, interpolate_at, Fe,
};
use crate::tensor::{lemma_next_pow, next_pow_spec};
use crate::poly::{evaluate, poly_eval};
use vstd::prelude::*;

verus! {

/// The coefficient vectors of a sequence of polynomials, as values.
pub open spec fn polys_view(p: Seq<Vec<Fe>>) -> Seq<Seq<nat>> {
    p.map_values(|v: Vec<Fe>| fe_views(v@))
}

/// The factor of polynomial `i` in the numerator at the point `o`:
/// `beta (i + 1) o + f_i(o) + gamma`.
pub open spec fn num_factor(f: Seq<Seq<nat>>, i: int, o: nat, beta: nat, gamma: nat) -> nat {
    fadd(fadd(fmul(fmul(beta, (i + 1) as nat), o), poly_eval(f[i], o)), gamma)
}

/// The factor of polynomial `i` in the denominator at the point `o`:
/// `beta s_i(o) + f_i(o) + gamma`.
pub open spec fn den_factor(f: Seq<Seq<nat>>, s: Seq<Seq<nat>>, i: int, o: nat, beta: nat, gamma: nat) -> nat {
    fadd(fadd(fmul(beta, poly_eval(s[i], o)), poly_eval(f[i], o)), gamma)
}

/// The product of the first `m` numerator factors, from one.
pub open spec fn num_prod(f: Seq<Seq<nat>>, o: nat, beta: nat, gamma: nat, m: nat) -> nat
    decreases m,
{
    if m == 0 {
        1
    } else {
        fmul(num_prod(f, o, beta, gamma, (m - 1) as nat), num_factor(f, m - 1, o, beta, gamma))
    }
}

/// The product of the first `m` denominator factors, from one.
pub open spec fn den_prod(f: Seq<Seq<nat>>, s: Seq<Seq<nat>>, o: nat, beta: nat, gamma: nat, m: nat) -> nat
    decreases m,
{
    if m == 0 {
        1
    } else {
        fmul(den_prod(f, s, o, beta, gamma, (m - 1) as nat), den_factor(f, s, m - 1, o, beta, gamma))
    }
}

/// The grand product at point `j` of the domain of size `n`: one at the
/// first point, then each value times the numerator and divided by the
/// denominator at the point before.
pub open spec fn grand_product(f: Seq<Seq<nat>>, s: Seq<Seq<nat>>, n: nat, beta: nat, gamma: nat, j: nat) -> nat
    decreases j,
{
    if j == 0 {
        1
    } else {
        let o = domain_element(n, (j - 1) as nat);
        fmul(
            fmul(grand_product(f, s, n, beta, gamma, (j - 1) as nat), num_prod(f, o, beta, gamma, f.len())),
            finv(den_prod(f, s, o, beta, gamma, f.len())),
        )
    }
}

/// The numerator product at a point.
fn numerator(f: &Vec<Vec<Fe>>, o: &Fe, beta: &Fe, gamma: &Fe) -> (r: Fe)
    requires
        f@.len() < 2147483647,
    ensures
        r@ == num_prod(polys_view(f@), o@, beta@, gamma@, f@.len() as nat),
{
    let mut acc = Fe::one();
    let mut i: usize = 0;
    while i < f.len()
        invariant
            f@.len() < 2147483647,
            i <= f@.len(),
            acc@ == num_prod(polys_view(f@), o@, beta@, gamma@, i as nat),
        decreases f@.len() - i,
    {
        let w = Fe::from_u64((i + 1) as u64);
        let t = fe_mul(&fe_mul(beta, &w), o);
        let v = evaluate(&f[i], o);
        let factor = fe_add(&fe_add(&t, &v), gamma);
        acc = fe_mul(&acc, &factor);
        proof {
            assert(polys_view(f@)[i as int] == fe_views(f@[i as int]@));
        }
        i = i + 1;
    }
    acc
}

/// The denominator product at a point.
fn denominator(f: &Vec<Vec<Fe>>, s: &Vec<Vec<Fe>>, o: &Fe, beta: &Fe, gamma: &Fe) -> (r: Fe)
    requires
        s@.len() >= f@.len(),
    ensures
        r@ == den_prod(polys_view(f@), polys_view(s@), o@, beta@, gamma@, f@.len() as nat),
{
    let mut acc = Fe::one();
    let mut i: usize = 0;
    while i < f.len()
        invariant
            s@.len() >= f@.len(),
            i <= f@.len(),
            acc@ == den_prod(polys_view(f@), polys_view(s@), o@, beta@, gamma@, i as nat),
        decreases f@.len() - i,
    {
        let sv = evaluate(&s[i], o);
        let t = fe_mul(beta, &sv);
        let v = evaluate(&f[i], o);
        let factor = fe_add(&fe_add(&t, &v), gamma);
        acc = fe_mul(&acc, &factor);
        proof {
            assert(polys_view(f@)[i as int] == fe_views(f@[i as int]@));
            assert(polys_view(s@)[i as int] == fe_views(s@[i as int]@));
        }
        i = i + 1;
    }
    acc
}

/// The grand product `Z` of the copy permutation over the domain of size
/// `n`, from the polynomials `f` (the inputs' then the outputs') and the
/// permutation polynomials `s`, with the challenges `beta` and `gamma`:
/// `Z[0] = 1` and `Z[j + 1] = Z[j] * prod_i (beta (i + 1) w^j + f_i(w^j) +
/// gamma) / prod_i (beta s_i(w^j) + f_i(w^j) + gamma)`. There is none when a
/// denominator is zero.
pub fn copy_grand_product(f: &Vec<Vec<Fe>>, s: &Vec<Vec<Fe>>, n: usize, beta: &Fe, gamma: &Fe) -> (r: Option<Vec<Fe>>)
    requires
        1 <= n <= 268435456,
        s@.len() >= f@.len(),
        f@.len() < 2147483647,
    ensures
        r is None <==> exists|j: nat|
            j < n - 1 && #[trigger] den_prod(
                polys_view(f@),
                polys_view(s@),
                domain_element(n as nat, j),
                beta@,
                gamma@,
                f@.len() as nat,
            ) == 0,
        r matches Some(z) ==> z@.len() == n && forall|j: int|
            0 <= j < n ==> (#[trigger] z@[j])@ == grand_product(
                polys_view(f@),
                polys_view(s@),
                n as nat,
                beta@,
                gamma@,
                j as nat,
            ),
{
    let ghost fv = polys_view(f@);
    let ghost sv = polys_view(s@);
    let mut z: Vec<Fe> = Vec::new();
    z.push(Fe::one());
    let mut j: usize = 0;
    while j + 1 < n
        invariant
            1 <= n <= 268435456,
            s@.len() >= f@.len(),
            f@.len() < 2147483647,
            fv == polys_view(f@),
            sv == polys_view(s@),
            j + 1 <= n,
            z@.len() == j + 1,
            forall|j2: int| 0 <= j2 <= j ==> (#[trigger] z@[j2])@ == grand_product(fv, sv, n as nat, beta@, gamma@, j2 as nat),
            forall|j2: nat| j2 < j ==> #[trigger] den_prod(fv, sv, domain_element(n as nat, j2), beta@, gamma@, f@.len() as nat) != 0,
        decreases n - j,
    {
        let o = domain_element_at(n, j);
        let num = numerator(f, &o, beta, gamma);
        let den = denominator(f, s, &o, beta, gamma);
        if den.eq(&Fe::zero()) {
            return None;
        }
        let inv = fe_inv(&den);
        let next = fe_mul(&fe_mul(&z[j], &num), &inv);
        z.push(next);
        j = j + 1;
    }
    Some(z)
}

/// The coefficients of `p + (b0 + b1 X + b2 X^2) (X^n - 1)`, where `p` has
/// `n` coefficients.
pub open spec fn blinded3(p: Seq<nat>, n: nat, b: (nat, nat, nat)) -> Seq<nat> {
    Seq::new(
        n + 3,
        |i: int|
            {
                let c = if i < n {
                    p[i]
                } else {
                    0
                };
                let hi = if i == n {
                    b.0
                } else if i == n + 1 {
                    b.1
                } else if i == n + 2 {
                    b.2
                } else {
                    0
                };
                let lo = if i == 0 {
                    b.0
                } else if i == 1 {
                    b.1
                } else if i == 2 {
                    b.2
                } else {
                    0
                };
                fadd(c, fsub(hi, lo))
            },
    )
}

/// The grand product polynomial: the values `z` interpolated over the
/// smallest domain of a power of two size that holds them, plus the
/// blinding `(b0 + b1 X + b2 X^2) (X^n - 1)` for that size `n`, without
/// trailing zero coefficients.
pub fn copy_z_poly(z: &Vec<Fe>, blind: (Fe, Fe, Fe)) -> (r: Vec<Fe>)
    requires
        z@.len() <= 268435456,
    ensures
        fe_views(r@) == trim(
            blinded3(interpolate(fe_views(z@)), next_pow_spec(z@.len()), (blind.0@, blind.1@, blind.2@)),
        ),
{
    let f = interpolate_at(z);
    let n = f.len();
    proof {
        lemma_next_pow(z@.len() as nat);
    }
    let ghost want = blinded3(interpolate(fe_views(z@)), n as nat, (blind.0@, blind.1@, blind.2@));
    let zero = Fe::zero();
    let mut p: Vec<Fe> = Vec::new();
    let mut i: usize = 0;
    while i < n + 3
        invariant
            n == f@.len(),
            n < usize::MAX - 3,
            fe_views(f@) == interpolate(fe_views(z@)),
            want == blinded3(interpolate(fe_views(z@)), n as nat, (blind.0@, blind.1@, blind.2@)),
            zero@ == 0,
            i <= n + 3,
            p@.len() == i,
            forall|k: int| 0 <= k < i ==> (#[trigger] p@[k])@ == want[k],
        decreases n + 3 - i,
    {
        let c = if i < n {
            f[i]
        } else {
            zero
        };
        let hi = if i == n {
            blind.0
        } else if i == n + 1 {
            blind.1
        } else if i == n + 2 {
            blind.2
        } else {
            zero
        };
        let lo = if i == 0 {
            blind.0
        } else if i == 1 {
            blind.1
        } else if i == 2 {
            blind.2
        } else {
            zero
        };
        p.push(fe_add(&c, &fe_sub(&hi, &lo)));
        proof {
            if i < n {
                assert(fe_views(f@)[i as int] == f@[i as int]@);
            }
        }
        i = i + 1;
    }
    proof {
        assert(fe_views(p@) =~= want);
    }
    trim_exec(&p)
}

/// The grand product of the copy permutation (as `copy_grand_product`
/// gives it, none when a denominator is zero), its blinded polynomial, and
/// the commitment to that polynomial with the first powers `x1a`.
pub fn copy_z_commitment(
    x1a: &Vec<G1Affine>,
    f: &Vec<Vec<Fe>>,
    s: &Vec<Vec<Fe>>,
    n: usize,
    beta: &Fe,
    gamma: &Fe,
    blind: (Fe, Fe, Fe),
) -> (r: Option<(Vec<Fe>, Vec<Fe>, G1)>)
    requires
        1 <= n <= 268435456,
        s@.len() >= f@.len(),
        f@.len() < 2147483647,
    ensures
        r is None <==> copy_grand_product_fails(f@, s@, n as nat, beta@, gamma@),
        r matches Some(t) ==> {
            &&& t.0@.len() == n
            &&& forall|j: int|
                0 <= j < n ==> (#[trigger] t.0@[j])@ == grand_product(
                    polys_view(f@),
                    polys_view(s@),
                    n as nat,
                    beta@,
                    gamma@,
                    j as nat,
                )
            &&& fe_views(t.1@) == trim(
                blinded3(interpolate(fe_views(t.0@)), next_pow_spec(n as nat), (blind.0@, blind.1@, blind.2@)),
            )
            &&& t.2@ == msm_zip(projs(affine_views(x1a@)), fe_views(t.1@))
        },
{
    match copy_grand_product(f, s, n, beta, gamma) {
        None => None,
        Some(z) => {
            let poly = copy_z_poly(&z, blind);
            let g = msm_zip_exec(&to_projs(x1a), &poly);
            Some((z, poly, g))
        },
    }
}

/// Whether some denominator of the grand product is zero.
pub open spec fn copy_grand_product_fails(f: Seq<Vec<Fe>>, s: Seq<Vec<Fe>>, n: nat, beta: nat, gamma: nat) -> bool {
    exists|j: nat|
        j < n - 1 && #[trigger] den_prod(
            polys_view(f),
            polys_view(s),
            domain_element(n, j),
            beta,
            gamma,
            f.len() as nat,
        ) == 0
}

/// The blinded commitment the copy constraint's prover sends for a
/// committed vector `g` with the blinds `(b0, b1)`:
/// `(x1p[n + 1] - x1p[1]) * b1 + (x1p[n] - x1p[0]) * b0 + g`.
pub open spec fn blinded_commitment(
    x1p: Seq<(nat, nat, nat)>,
    n: int,
    g: (nat, nat, nat),
    b0: nat,
    b1: nat,
) -> (nat, nat, nat) {
    g1_add(
        g1_add(g1_scale(g1_sub(x1p[n + 1], x1p[1]), b1), g1_scale(g1_sub(x1p[n], x1p[0]), b0)),
        g,
    )
}

/// The blinded commitments of the copy constraint's vectors (the inputs'
/// then the outputs'), for the vector size `n` and one pair of blinds per
/// vector.
pub fn copy_blinded_commitments(x1p: &Vec<G1>, commitments: &Vec<G1>, n: usize, blinds: &Vec<(Fe, Fe)>) -> (r: Vec<G1>)
    requires
        n + 1 < x1p@.len(),
        blinds@.len() >= commitments@.len(),
    ensures
        r@.len() == commitments@.len(),
        forall|i: int|
            0 <= i < r@.len() ==> (#[trigger] r@[i])@ == blinded_commitment(
                g1_views(x1p@),
                n as int,
                commitments@[i]@,
                blinds@[i].0@,
                blinds@[i].1@,
            ),
{
    let len = x1p.len();
    assert(n + 1 < len);
    let hi = g1_sub_at(&x1p[n + 1], &x1p[1]);
    let lo = g1_sub_at(&x1p[n], &x1p[0]);
    let mut r: Vec<G1> = Vec::new();
    let mut i: usize = 0;
    while i < commitments.len()
        invariant
            n + 1 < x1p@.len(),
            blinds@.len() >= commitments@.len(),
            hi@ == g1_sub(x1p@[n + 1]@, x1p@[1]@),
            lo@ == g1_sub(x1p@[n as int]@, x1p@[0]@),
            i <= commitments@.len(),
            r@.len() == i,
            forall|k: int|
                0 <= k < i ==> (#[trigger] r@[k])@ == blinded_commitment(
                    g1_views(x1p@),
                    n as int,
                    commitments@[k]@,
                    blinds@[k].0@,
                    blinds@[k].1@,
                ),
        decreases commitments@.len() - i,
    {
        let b = blinds[i];
        let t = g1_add_at(&g1_scale_at(&hi, &b.1), &g1_scale_at(&lo, &b.0));
        r.push(g1_add_at(&t, &commitments[i]));
        i = i + 1;
    }
    r
}

/// The numerator factor of vector `i` at the `j`-th point `o`, from values
/// on the domain: `beta (i + 1) o + v_i[j] + gamma`.
pub open spec fn vnum_factor(v: Seq<Seq<nat>>, i: int, j: int, o: nat, beta: nat, gamma: nat) -> nat {
    fadd(fadd(fmul(fmul(beta, (i + 1) as nat), o), v[i][j]), gamma)
}

/// The denominator factor of vector `i` at the `j`-th point, from values on
/// the domain: `beta s_i[j] + v_i[j] + gamma`.
pub open spec fn vden_factor(v: Seq<Seq<nat>>, s: Seq<Seq<nat>>, i: int, j: int, beta: nat, gamma: nat) -> nat {
    fadd(fadd(fmul(beta, s[i][j]), v[i][j]), gamma)
}

/// The product of the first `m` numerator factors at the `j`-th point.
pub open spec fn vnum_prod(v: Seq<Seq<nat>>, j: int, o: nat, beta: nat, gamma: nat, m: nat) -> nat
    decreases m,
{
    if m == 0 {
        1
    } else {
        fmul(vnum_prod(v, j, o, beta, gamma, (m - 1) as nat), vnum_factor(v, m - 1, j, o, beta, gamma))
    }
}

/// The product of the first `m` denominator factors at the `j`-th point.
pub open spec fn vden_prod(v: Seq<Seq<nat>>, s: Seq<Seq<nat>>, j: int, beta: nat, gamma: nat, m: nat) -> nat
    decreases m,
{
    if m == 0 {
        1
    } else {
        fmul(vden_prod(v, s, j, beta, gamma, (m - 1) as nat), vden_factor(v, s, m - 1, j, beta, gamma))
    }
}

/// The grand product from values on the domain of size `n`: one at the
/// first point, then each value times the numerator and divided by the
/// denominator at the point before.
pub open spec fn value_grand_product(v: Seq<Seq<nat>>, s: Seq<Seq<nat>>, n: nat, beta: nat, gamma: nat, j: nat) -> nat
    decreases j,
{
    if j == 0 {
        1
    } else {
        let o = domain_element(n, (j - 1) as nat);
        fmul(
            fmul(value_grand_product(v, s, n, beta, gamma, (j - 1) as nat), vnum_prod(v, j - 1, o, beta, gamma, v.len())),
            finv(vden_prod(v, s, j - 1, beta, gamma, v.len())),
        )
    }
}

/// Whether every vector holds at least `k` values.
pub open spec fn all_reach(v: Seq<Vec<Fe>>, k: int) -> bool {
    forall|i: int| 0 <= i < v.len() ==> #[trigger] v[i]@.len() >= k
}

fn value_numerator(v: &Vec<Vec<Fe>>, j: usize, o: &Fe, beta: &Fe, gamma: &Fe) -> (r: Fe)
    requires
        v@.len() < 2147483647,
        all_reach(v@, j + 1),
    ensures
        r@ == vnum_prod(polys_view(v@), j as int, o@, beta@, gamma@, v@.len() as nat),
{
    let mut acc = Fe::one();
    let mut i: usize = 0;
    while i < v.len()
        invariant
            v@.len() < 2147483647,
            all_reach(v@, j + 1),
            i <= v@.len(),
            acc@ == vnum_prod(polys_view(v@), j as int, o@, beta@, gamma@, i as nat),
        decreases v@.len() - i,
    {
        assert(v@[i as int]@.len() >= j + 1);
        let w = Fe::from_u64((i + 1) as u64);
        let t = fe_mul(&fe_mul(beta, &w), o);
        let factor = fe_add(&fe_add(&t, &v[i][j]), gamma);
        acc = fe_mul(&acc, &factor);
        proof {
            assert(polys_view(v@)[i as int] == fe_views(v@[i as int]@));
        }
        i = i + 1;
    }
    acc
}

fn value_denominator(v: &Vec<Vec<Fe>>, s: &Vec<Vec<Fe>>, j: usize, beta: &Fe, gamma: &Fe) -> (r: Fe)
    requires
        s@.len() >= v@.len(),
        all_reach(v@, j + 1),
        all_reach(s@, j + 1),
    ensures
        r@ == vden_prod(polys_view(v@), polys_view(s@), j as int, beta@, gamma@, v@.len() as nat),
{
    let mut acc = Fe::one();
    let mut i: usize = 0;
    while i < v.len()
        invariant
            s@.len() >= v@.len(),
            all_reach(v@, j + 1),
            all_reach(s@, j + 1),
            i <= v@.len(),
            acc@ == vden_prod(polys_view(v@), polys_view(s@), j as int, beta@, gamma@, i as nat),
        decreases v@.len() - i,
    {
        assert(v@[i as int]@.len() >= j + 1);
        assert(s@[i as int]@.len() >= j + 1);
        let factor = fe_add(&fe_add(&fe_mul(beta, &s[i][j]), &v[i][j]), gamma);
        acc = fe_mul(&acc, &factor);
        proof {
            assert(polys_view(v@)[i as int] == fe_views(v@[i as int]@));
            assert(polys_view(s@)[i as int] == fe_views(s@[i as int]@));
        }
        i = i + 1;
    }
    acc
}

/// The grand product of the concatenation's permutation over the domain
/// of size `n`, from the vectors' values `v` on the domain (the inputs'
/// then the output's) and the permutation's values `s`: `Z[0] = 1` and
/// `Z[j + 1] = Z[j] * prod_i (beta (i + 1) w^j + v_i[j] + gamma) / prod_i
/// (beta s_i[j] + v_i[j] + gamma)`. There is none when a denominator is
/// zero.
pub fn value_grand_product_exec(v: &Vec<Vec<Fe>>, s: &Vec<Vec<Fe>>, n: usize, beta: &Fe, gamma: &Fe) -> (r: Option<Vec<Fe>>)
    requires
        1 <= n <= 268435456,
        s@.len() >= v@.len(),
        v@.len() < 2147483647,
        all_reach(v@, n - 1),
        all_reach(s@, n - 1),
    ensures
        r is None <==> exists|j: nat|
            j < n - 1 && #[trigger] vden_prod(polys_view(v@), polys_view(s@), j as int, beta@, gamma@, v@.len() as nat) == 0,
        r matches Some(z) ==> z@.len() == n && forall|j: int|
            0 <= j < n ==> (#[trigger] z@[j])@ == value_grand_product(
                polys_view(v@),
                polys_view(s@),
                n as nat,
                beta@,
                gamma@,
                j as nat,
            ),
{
    let ghost fv = polys_view(v@);
    let ghost sv = polys_view(s@);
    let mut z: Vec<Fe> = Vec::new();
    z.push(Fe::one());
    let mut j: usize = 0;
    while j + 1 < n
        invariant
            1 <= n <= 268435456,
            s@.len() >= v@.len(),
            v@.len() < 2147483647,
            all_reach(v@, n - 1),
            all_reach(s@, n - 1),
            fv == polys_view(v@),
            sv == polys_view(s@),
            j + 1 <= n,
            z@.len() == j + 1,
            forall|j2: int| 0 <= j2 <= j ==> (#[trigger] z@[j2])@ == value_grand_product(fv, sv, n as nat, beta@, gamma@, j2 as nat),
            forall|j2: nat| j2 < j ==> #[trigger] vden_prod(fv, sv, j2 as int, beta@, gamma@, v@.len() as nat) != 0,
        decreases n - j,
    {
        let o = domain_element_at(n, j);
        let num = value_numerator(v, j, &o, beta, gamma);
        let den = value_denominator(v, s, j, beta, gamma);
        if den.eq(&Fe::zero()) {
            return None;
        }
        let inv = fe_inv(&den);
        let next = fe_mul(&fe_mul(&z[j], &num), &inv);
        z.push(next);
        j = j + 1;
    }
    Some(z)
}

/// The concatenation's grand product from values on the domain (as
/// `value_grand_product_exec` gives it, none when a denominator is zero),
/// its blinded polynomial, and the commitment to that polynomial with the
/// first powers `x1a`.
pub fn value_z_commitment(
    x1a: &Vec<G1Affine>,
    v: &Vec<Vec<Fe>>,
    s: &Vec<Vec<Fe>>,
    n: usize,
    beta: &Fe,
    gamma: &Fe,
    blind: (Fe, Fe, Fe),
) -> (r: Option<(Vec<Fe>, Vec<Fe>, G1)>)
    requires
        1 <= n <= 268435456,
        s@.len() >= v@.len(),
        v@.len() < 2147483647,
        all_reach(v@, n - 1),
        all_reach(s@, n - 1),
    ensures
        r is None <==> exists|j: nat|
            j < n - 1 && #[trigger] vden_prod(polys_view(v@), polys_view(s@), j as int, beta@, gamma@, v@.len() as nat) == 0,
        r matches Some(t) ==> {
            &&& t.0@.len() == n
            &&& forall|j: int|
                0 <= j < n ==> (#[trigger] t.0@[j])@ == value_grand_product(
                    polys_view(v@),
                    polys_view(s@),
                    n as nat,
                    beta@,
                    gamma@,
                    j as nat,
                )
            &&& fe_views(t.1@) == trim(
                blinded3(interpolate(fe_views(t.0@)), next_pow_spec(n as nat), (blind.0@, blind.1@, blind.2@)),
            )
            &&& t.2@ == msm_zip(projs(affine_views(x1a@)), fe_views(t.1@))
        },
{
    match value_grand_product_exec(v, s, n, beta, gamma) {
        None => None,
        Some(z) => {
            let poly = copy_z_poly(&z, blind);
            let g = msm_zip_exec(&to_projs(x1a), &poly);
            Some((z, poly, g))
        },
    }
}

/// The concatenation's quotient commitment over the first `k` vectors:
/// `sum_i (x1p[1] * (-b1_i) - x1p[0] * b0_i + y1p * r_i) * w^(i + 1)`,
/// added in order from the identity.
pub open spec fn quotient_blind_sum(
    x1p: Seq<(nat, nat, nat)>,
    y1p: (nat, nat, nat),
    blinds: Seq<(nat, nat)>,
    rs: Seq<nat>,
    w: nat,
    k: nat,
) -> (nat, nat, nat)
    decreases k,
{
    if k == 0 {
        g1_zero_view()
    } else {
        let i = k - 1;
        let t = g1_add(g1_sub(g1_scale(x1p[1], fneg(blinds[i].1)), g1_scale(x1p[0], blinds[i].0)), g1_scale(y1p, rs[i]));
        g1_add(quotient_blind_sum(x1p, y1p, blinds, rs, w, (k - 1) as nat), g1_scale(t, fpow(w, k)))
    }
}

/// The concatenation's matching commitment over the first `k` vectors:
/// `sum_i ((x1p[n] - x1p[0]) * r_i - x1p[0] * s_i) * w^(i + 1)`, with the
/// vectors' own blinding scalars `s`, added in order from the identity.
pub open spec fn blind_match_sum(
    x1p: Seq<(nat, nat, nat)>,
    n: int,
    rs: Seq<nat>,
    own: Seq<nat>,
    w: nat,
    k: nat,
) -> (nat, nat, nat)
    decreases k,
{
    if k == 0 {
        g1_zero_view()
    } else {
        let i = k - 1;
        let t = g1_sub(g1_scale(g1_sub(x1p[n], x1p[0]), rs[i]), g1_scale(x1p[0], own[i]));
        g1_add(blind_match_sum(x1p, n, rs, own, w, (k - 1) as nat), g1_scale(t, fpow(w, k)))
    }
}

/// The two commitments with which the concatenation's prover shows that
/// its blinded vectors are the committed ones, for `m` vectors of size `n`,
/// their blinds, the fresh scalars `rs`, the vectors' own blinding scalars
/// `own`, and the challenge `w`: the quotient commitment and the matching
/// one.
pub fn blind_openings(
    x1p: &Vec<G1>,
    y1p: &G1,
    n: usize,
    blinds: &Vec<(Fe, Fe)>,
    rs: &Vec<Fe>,
    own: &Vec<Fe>,
    w: &Fe,
) -> (r: (G1, G1))
    requires
        1 <= blinds@.len(),
        n < x1p@.len(),
        2 <= x1p@.len(),
        rs@.len() >= blinds@.len(),
        own@.len() >= blinds@.len(),
    ensures
        ({
            let b = blinds@.map_values(|p: (Fe, Fe)| (p.0@, p.1@));
            let m = blinds@.len() as nat;
            &&& r.0@ == quotient_blind_sum(g1_views(x1p@), y1p@, b, fe_views(rs@), w@, m)
            &&& r.1@ == blind_match_sum(g1_views(x1p@), n as int, fe_views(rs@), fe_views(own@), w@, m)
        }),
{
    let ghost b = blinds@.map_values(|p: (Fe, Fe)| (p.0@, p.1@));
    let m = blinds.len();
    let w_pows = calc_pow(*w, m);
    let d = g1_sub_at(&x1p[n], &x1p[0]);
    let mut q = G1::zero();
    let mut t = G1::zero();
    let mut i: usize = 0;
    while i < m
        invariant
            m == blinds@.len(),
            b == blinds@.map_values(|p: (Fe, Fe)| (p.0@, p.1@)),
            n < x1p@.len(),
            2 <= x1p@.len(),
            rs@.len() >= m,
            own@.len() >= m,
            w_pows@.len() == m,
            forall|k: int| 0 <= k < m ==> #[trigger] w_pows@[k]@ == fpow(w@, (k + 1) as nat),
            d@ == g1_sub(x1p@[n as int]@, x1p@[0]@),
            i <= m,
            q@ == quotient_blind_sum(g1_views(x1p@), y1p@, b, fe_views(rs@), w@, i as nat),
            t@ == blind_match_sum(g1_views(x1p@), n as int, fe_views(rs@), fe_views(own@), w@, i as nat),
        decreases m - i,
    {
        let bl = blinds[i];
        let a = g1_sub_at(&g1_scale_at(&x1p[1], &fe_neg(&bl.1)), &g1_scale_at(&x1p[0], &bl.0));
        let e = g1_add_at(&a, &g1_scale_at(y1p, &rs[i]));
        q = g1_add_at(&q, &g1_scale_at(&e, &w_pows[i]));
        let f = g1_sub_at(&g1_scale_at(&d, &rs[i]), &g1_scale_at(&x1p[0], &own[i]));
        t = g1_add_at(&t, &g1_scale_at(&f, &w_pows[i]));
        proof {
            assert(b[i as int] == (bl.0@, bl.1@));
            assert(fe_views(rs@)[i as int] == rs@[i as int]@);
            assert(fe_views(own@)[i as int] == own@[i as int]@);
            assert(g1_views(x1p@)[0] == x1p@[0]@ && g1_views(x1p@)[1] == x1p@[1]@);
            assert(g1_views(x1p@)[n as int] == x1p@[n as int]@);
        }
        i = i + 1;
    }
    (q, t)
}

} // verus!
