//! Pieces that the provers share: multi-scalar multiplications that pair
//! bases with scalars up to the shorter of the two, weighted sums of
//! committed vectors, and chains of squares.
use super::concat_check::{fe_dot, sub_vec};
use super::data::Data;
use crate::curve::{g1_views, msm, msm_upto, G1};
use crate::field::{fe_add, fe_mul, fe_views, fmul, Fe};
use vstd::prelude::*;

verus! {

/// `sum scalars[i] * bases[i]` over the indices both sequences have.
pub open spec fn msm_zip(bases: Seq<(nat, nat, nat)>, scalars: Seq<nat>) -> (nat, nat, nat) {
    msm_upto(bases, scalars, if bases.len() < scalars.len() { bases.len() } else { scalars.len() })
}

/// A multi-scalar multiplication reads only the scalars it reaches.
pub proof fn lemma_msm_prefix(b: Seq<(nat, nat, nat)>, s: Seq<nat>, t: Seq<nat>, k: nat)
    requires
        k <= s.len(),
        k <= t.len(),
        forall|i: int| 0 <= i < k ==> s[i] == t[i],
    ensures
        msm_upto(b, s, k) == msm_upto(b, t, k),
    decreases k,
{
    if k > 0 {
        lemma_msm_prefix(b, s, t, (k - 1) as nat);
    }
}

/// `sum scalars[i] * bases[i]` over the indices both vectors have.
pub fn msm_zip_exec(bases: &Vec<G1>, scalars: &Vec<Fe>) -> (r: G1)
    ensures
        r@ == msm_zip(g1_views(bases@), fe_views(scalars@)),
{
    let k = if bases.len() < scalars.len() {
        bases.len()
    } else {
        scalars.len()
    };
    let sc = sub_vec(scalars, 0, k);
    let r = msm(bases, &sc);
    proof {
        lemma_msm_prefix(g1_views(bases@), fe_views(sc@), fe_views(scalars@), k as nat);
    }
    r
}

/// `g, g^2, g^4, ...`: the `k`-th repeated square of `g`.
pub open spec fn squares(g: nat, k: nat) -> nat
    decreases k,
{
    if k == 0 {
        g
    } else {
        fmul(squares(g, (k - 1) as nat), squares(g, (k - 1) as nat))
    }
}

/// `g` and its first `k` repeated squares.
pub fn square_chain(g: &Fe, k: usize) -> (r: Vec<Fe>)
    requires
        k < usize::MAX,
    ensures
        r@.len() == k + 1,
        forall|i: int| 0 <= i <= k ==> (#[trigger] r@[i])@ == squares(g@, i as nat),
{
    let mut r: Vec<Fe> = Vec::new();
    r.push(*g);
    let mut i: usize = 0;
    while i < k
        invariant
            i <= k,
            r@.len() == i + 1,
            forall|j: int| 0 <= j <= i ==> (#[trigger] r@[j])@ == squares(g@, j as nat),
        decreases k - i,
    {
        let s = fe_mul(&r[i], &r[i]);
        r.push(s);
        i = i + 1;
    }
    r
}

/// Element `j` of each of the first `l` vectors.
pub open spec fn column(d: Seq<Data>, j: int, l: nat) -> Seq<nat> {
    Seq::new(l, |i: int| d[i].raw@[j]@)
}

/// `sum_i w[i] * d[i].raw[j]` for `j < k`: the vectors weighted by `w`, added
/// element by element in order of `i`.
pub fn weighted_raw(d: &Vec<Data>, w: &Vec<Fe>, k: usize) -> (r: Vec<Fe>)
    requires
        w@.len() <= d@.len(),
        forall|i: int| 0 <= i < w@.len() ==> (#[trigger] d@[i]).raw@.len() >= k,
    ensures
        r@.len() == k,
        forall|j: int| 0 <= j < k ==> (#[trigger] r@[j])@ == fe_dot(column(d@, j, w@.len() as nat), fe_views(w@), w@.len() as nat),
{
    let l = w.len();
    let mut r: Vec<Fe> = Vec::new();
    let mut j: usize = 0;
    while j < k
        invariant
            l == w@.len(),
            w@.len() <= d@.len(),
            forall|i: int| 0 <= i < w@.len() ==> (#[trigger] d@[i]).raw@.len() >= k,
            j <= k,
            r@.len() == j,
            forall|j2: int| 0 <= j2 < j ==> (#[trigger] r@[j2])@ == fe_dot(column(d@, j2, l as nat), fe_views(w@), l as nat),
        decreases k - j,
    {
        let mut acc = Fe::zero();
        let mut i: usize = 0;
        while i < l
            invariant
                l == w@.len(),
                w@.len() <= d@.len(),
                forall|i2: int| 0 <= i2 < w@.len() ==> (#[trigger] d@[i2]).raw@.len() >= k,
                j < k,
                i <= l,
                acc@ == fe_dot(column(d@, j as int, l as nat), fe_views(w@), i as nat),
            decreases l - i,
        {
            assert(d@[i as int].raw@.len() >= k);
            acc = fe_add(&acc, &fe_mul(&d[i].raw[j], &w[i]));
            proof {
                assert(column(d@, j as int, l as nat)[i as int] == d@[i as int].raw@[j as int]@);
                assert(fe_views(w@)[i as int] == w@[i as int]@);
            }
            i = i + 1;
        }
        r.push(acc);
        j = j + 1;
    }
    r
}

/// `sum_i w[i] * v[i]` over `w`.
pub fn weighted_sum(v: &Vec<Fe>, w: &Vec<Fe>) -> (r: Fe)
    requires
        w@.len() <= v@.len(),
    ensures
        r@ == fe_dot(fe_views(v@), fe_views(w@), w@.len() as nat),
{
    let mut acc = Fe::zero();
    let mut i: usize = 0;
    while i < w.len()
        invariant
            w@.len() <= v@.len(),
            i <= w@.len(),
            acc@ == fe_dot(fe_views(v@), fe_views(w@), i as nat),
        decreases w@.len() - i,
    {
        acc = fe_add(&acc, &fe_mul(&v[i], &w[i]));
        i = i + 1;
    }
    acc
}

} // verus!

verus! {

/// The sum of the first `k` values, from zero.
pub open spec fn nat_sum(s: Seq<nat>, k: nat) -> nat
    decreases k,
{
    if k == 0 {
        0
    } else {
        crate::field::fadd(nat_sum(s, (k - 1) as nat), s[k - 1])
    }
}

/// The sum of a vector's values.
pub fn sum_exec(v: &Vec<Fe>) -> (r: Fe)
    ensures
        r@ == nat_sum(fe_views(v@), v@.len() as nat),
{
    let mut acc = Fe::zero();
    let mut i: usize = 0;
    while i < v.len()
        invariant
            i <= v@.len(),
            acc@ == nat_sum(fe_views(v@), i as nat),
        decreases v@.len() - i,
    {
        acc = fe_add(&acc, &v[i]);
        i = i + 1;
    }
    acc
}

/// Removing trailing zeros twice is removing them once.
pub proof fn lemma_trim_twice(s: Seq<nat>)
    ensures
        crate::basic_block::data::trim(crate::basic_block::data::trim(s)) == crate::basic_block::data::trim(s),
    decreases s.len(),
{
    if s.len() > 0 && s.last() == 0 {
        lemma_trim_twice(s.drop_last());
    }
}

/// A vector without its trailing zeros.
pub fn trim_exec(v: &Vec<Fe>) -> (r: Vec<Fe>)
    ensures
        fe_views(r@) == crate::basic_block::data::trim(fe_views(v@)),
{
    let zero = Fe::zero();
    let mut len = v.len();
    while len > 0 && v[len - 1].eq(&zero)
        invariant
            len <= v@.len(),
            zero@ == 0,
            forall|k: int| len <= k < v@.len() ==> fe_views(v@)[k] == 0,
        decreases len,
    {
        len = len - 1;
    }
    let r = sub_vec(v, 0, len);
    proof {
        let w = fe_views(v@);
        assert(fe_views(r@) =~= w.take(len as int));
        crate::basic_block::data::lemma_trim_prefix(w, len as int);
        assert(crate::basic_block::data::trim(w.take(len as int)) == w.take(len as int)) by {
            if len > 0 {
                assert(w.take(len as int).last() == w[len - 1]);
            }
        }
    }
    r
}

/// `sum scalars[i] * bases[i]` in the second group, over the indices both
/// sequences have.
pub open spec fn msm2_zip(bases: Seq<((nat, nat), (nat, nat), bool)>, scalars: Seq<nat>) -> (
    (nat, nat),
    (nat, nat),
    (nat, nat),
) {
    super::matmul_check::msm2_upto(bases, scalars, if bases.len() < scalars.len() { bases.len() } else { scalars.len() })
}

/// The second-group multi-scalar multiplication over the indices both
/// vectors have.
pub fn msm2_zip_exec(bases: &Vec<crate::curve::G2Affine>, scalars: &Vec<Fe>) -> (r: crate::curve::G2)
    ensures
        r@ == msm2_zip(bases@.map_values(|q: crate::curve::G2Affine| q@), fe_views(scalars@)),
{
    let k = if bases.len() < scalars.len() {
        bases.len()
    } else {
        scalars.len()
    };
    let sc = sub_vec(scalars, 0, k);
    let r = super::matmul_check::msm2(bases, &sc);
    proof {
        lemma_msm2_prefix(bases@.map_values(|q: crate::curve::G2Affine| q@), fe_views(sc@), fe_views(scalars@), k as nat);
    }
    r
}

/// A second-group multi-scalar multiplication reads only the scalars it
/// reaches.
pub proof fn lemma_msm2_prefix(b: Seq<((nat, nat), (nat, nat), bool)>, s: Seq<nat>, t: Seq<nat>, k: nat)
    requires
        k <= s.len(),
        k <= t.len(),
        forall|i: int| 0 <= i < k ==> s[i] == t[i],
    ensures
        super::matmul_check::msm2_upto(b, s, k) == super::matmul_check::msm2_upto(b, t, k),
    decreases k,
{
    if k > 0 {
        lemma_msm2_prefix(b, s, t, (k - 1) as nat);
    }
}

} // verus!
