//! Committed vectors: a vector of field elements, the blinded polynomial that
//! takes its values on an evaluation domain, and the commitment to that
//! polynomial; and their encoding for a verifier.
use crate::curve::{g1_proj_view, g1_affine, g1_affine_at, g1_views, msm, msm_upto, G1Affine, G1, G2, G2Affine};
use crate::eval::lemma_blinded_eval;
use crate::field::{domain_element, fadd, fe_add, fe_sub, fe_views, fsub, interpolate, interpolate_at, Fe};
use crate::poly::poly_eval;
use super::transpose::fpow;
use crate::tensor::{lemma_next_pow, next_pow_spec};
use vstd::prelude::*;

verus! {

/// A committed vector: its values, the coefficients (lowest first, without
/// trailing zeros) of the blinded polynomial that takes them on the domain,
/// and the commitment to that polynomial.
#[derive(Clone, Debug)]
pub struct Data {
    pub raw: Vec<Fe>,
    pub poly: Vec<Fe>,
    pub g1: G1,
}

/// A committed vector as the verifier sees it: its length and its
/// commitment in affine form.
#[derive(Clone, Copy, Debug)]
pub struct DataEnc {
    pub len: usize,
    pub g1: G1Affine,
}

/// The projective form of a committed vector's commitment.
pub open spec fn enc_point(d: DataEnc) -> (nat, nat, nat) {
    g1_proj_view(d.g1@)
}

/// The structured reference string: powers of the secret in both groups,
/// in affine and projective form, and the blinding generators.
#[allow(non_snake_case)]
#[derive(Clone, Debug)]
pub struct SRS {
    pub X1A: Vec<G1Affine>,
    pub X2A: Vec<G2Affine>,
    pub X1P: Vec<G1>,
    pub X2P: Vec<G2>,
    pub Y1P: G1,
    pub Y2A: G2Affine,
    pub Y2P: G2,
}

/// The coefficients of `f + (r0 + r1 X) (X^n - 1)`, where `f` has `n`
/// coefficients: the blinding vanishes on a domain of size `n`.
pub open spec fn blinded(f: Seq<nat>, n: nat, r0: nat, r1: nat) -> Seq<nat> {
    Seq::new(
        n + 2,
        |i: int|
            {
                let c = if i < n {
                    f[i]
                } else {
                    0
                };
                let hi = if i == n {
                    r0
                } else if i == n + 1 {
                    r1
                } else {
                    0
                };
                let lo = if i == 0 {
                    r0
                } else if i == 1 {
                    r1
                } else {
                    0
                };
                fadd(c, fsub(hi, lo))
            },
    )
}

/// A sequence without its trailing zeros.
pub open spec fn trim(s: Seq<nat>) -> Seq<nat>
    decreases s.len(),
{
    if s.len() > 0 && s.last() == 0 {
        trim(s.drop_last())
    } else {
        s
    }
}

/// The inputs `Data::new` accepts: a vector whose domain exists, and enough
/// commitment bases for the blinded polynomial.
pub open spec fn data_accepts(srs_g1: Seq<G1>, raw: Seq<Fe>) -> bool {
    &&& raw.len() <= 268435456
    &&& srs_g1.len() >= next_pow_spec(raw.len()) + 2
}

/// The first `k` elements of a sequence with its trailing zeros removed.
pub(crate) proof fn lemma_trim_prefix(s: Seq<nat>, k: int)
    requires
        0 <= k <= s.len(),
        forall|i: int| k <= i < s.len() ==> s[i] == 0,
    ensures
        trim(s) == trim(s.take(k)),
    decreases s.len(),
{
    if s.len() > k {
        assert(s.drop_last().take(k) =~= s.take(k));
        lemma_trim_prefix(s.drop_last(), k);
    } else {
        assert(s.take(k) =~= s);
    }
}

impl Data {
    /// Commits to `raw`: interpolates it over the smallest domain of a power
    /// of two size that holds it, adds the blinding `(r0 + r1 X) (X^n - 1)`
    /// with `blind = (r0, r1)` (which leaves the values on the domain
    /// unchanged), and commits to the coefficients with the bases `srs_g1`.
    pub fn new(srs_g1: &Vec<G1>, raw: &Vec<Fe>, blind: (Fe, Fe)) -> (r: Data)
        requires
            data_accepts(srs_g1@, raw@),
        ensures
            r.raw@ == raw@,
            fe_views(r.poly@) == trim(
                blinded(interpolate(fe_views(raw@)), next_pow_spec(raw@.len()), blind.0@, blind.1@),
            ),
            r.g1@ == msm_upto(g1_views(srs_g1@), fe_views(r.poly@), r.poly@.len() as nat),
            forall|j: int|
                0 <= j < next_pow_spec(raw@.len()) && fpow(
                    #[trigger] domain_element(raw@.len() as nat, j as nat),
                    next_pow_spec(raw@.len()),
                ) == 1 ==> poly_eval(fe_views(r.poly@), domain_element(raw@.len() as nat, j as nat)) == if j < raw@.len() {
                    raw@[j]@
                } else {
                    0
                },
    {
        let f = interpolate_at(raw);
        let n = f.len();
        proof {
            lemma_next_pow(raw@.len() as nat);
        }
        let ghost want = blinded(interpolate(fe_views(raw@)), n as nat, blind.0@, blind.1@);
        let zero = Fe::zero();
        let mut p: Vec<Fe> = Vec::new();
        let mut i: usize = 0;
        while i < n + 2
            invariant
                n == f@.len(),
                n < usize::MAX - 2,
                fe_views(f@) == interpolate(fe_views(raw@)),
                want == blinded(interpolate(fe_views(raw@)), n as nat, blind.0@, blind.1@),
                zero@ == 0,
                i <= n + 2,
                p@.len() == i,
                forall|k: int| 0 <= k < i ==> (#[trigger] p@[k])@ == want[k],
            decreases n + 2 - i,
        {
            let c = if i < n {
                f[i]
            } else {
                zero
            };
            let hi = if i == n {
                blind.0
            } else if i == n + 1 {
                blind.1
            } else {
                zero
            };
            let lo = if i == 0 {
                blind.0
            } else if i == 1 {
                blind.1
            } else {
                zero
            };
            let d = fe_sub(&hi, &lo);
            p.push(fe_add(&c, &d));
            proof {
                if i < n {
                    assert(fe_views(f@)[i as int] == f@[i as int]@);
                }
            }
            i = i + 1;
        }
        // Drop the trailing zero coefficients.
        let mut len = p.len();
        proof {
            assert(fe_views(p@) =~= want);
        }
        while len > 0 && p[len - 1].eq(&zero) == true
            invariant
                len <= p@.len(),
                zero@ == 0,
                fe_views(p@) == want,
                forall|k: int| len <= k < p@.len() ==> fe_views(p@)[k] == 0,
            decreases len,
        {
            len = len - 1;
        }
        p.truncate(len);
        proof {
            let w = fe_views(p@);
            assert(w =~= want.take(len as int));
            lemma_trim_prefix(want, len as int);
            assert(len == 0 || want[len - 1] != 0);
            assert(trim(want.take(len as int)) == want.take(len as int)) by {
                if len > 0 {
                    assert(want.take(len as int).last() == want[len - 1]);
                }
            }
        }
        proof {
            let nn = next_pow_spec(raw@.len());
            assert forall|j: int|
                0 <= j < nn && fpow(#[trigger] domain_element(raw@.len() as nat, j as nat), nn) == 1 implies poly_eval(
                fe_views(p@),
                domain_element(raw@.len() as nat, j as nat),
            ) == if j < raw@.len() {
                raw@[j]@
            } else {
                0
            } by {
                lemma_blinded_eval(fe_views(f@), nn, blind.0@, blind.1@, domain_element(raw@.len() as nat, j as nat));
            }
        }
        let g1 = msm(srs_g1, &p);
        Data { raw: raw.clone(), poly: p, g1 }
    }
}

impl DataEnc {
    /// The verifier's view of a committed vector: its length and its
    /// commitment in affine form.
    pub fn new(data: &Data) -> (r: DataEnc)
        ensures
            r.len == data.raw@.len(),
            r.g1@ == g1_affine(data.g1@),
    {
        DataEnc { len: data.raw.len(), g1: g1_affine_at(&data.g1) }
    }
}

} // verus!
