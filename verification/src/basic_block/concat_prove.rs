//! The first rounds of the concatenation's and the copy constraint's
//! provers: the values their permutation arguments read, the blinded
//! commitments of the vectors, the commitments that tie them to the
//! committed ones, and the grand product with its commitment.
use super::concat_check::{affine_views, projs, sub_vec};
use super::copy_prove::{
    all_reach, blind_match_sum, blind_openings, blinded3, blinded_commitment, copy_blinded_commitments,
    copy_z_commitment, grand_product, polys_view, quotient_blind_sum, value_grand_product,
    value_z_commitment, vden_prod,
};
use super::data::{trim, Data, SRS};
use super::prover::msm_zip;
use crate::curve::{g1_views, G1};
use crate::field::{domain_element, evaluate_on_domain_at, fe_views, interpolate, Fe};
use crate::poly::poly_eval;
use crate::tensor::{lemma_next_pow, next_pow_spec};
use vstd::prelude::*;

verus! {

/// The coefficients `fft` reads: the first ones, as many as the domain's
/// size.
pub open spec fn fft_part(c: Seq<nat>, size: nat) -> Seq<nat> {
    c.take(
        if c.len() < size {
            c.len() as int
        } else {
            size as int
        },
    )
}

/// The values of a committed input vector on the domain built for `n`
/// points.
pub open spec fn input_values(x: Data, n: nat) -> Seq<nat> {
    let size = next_pow_spec(n);
    Seq::new(size, |j: int| poly_eval(fft_part(fe_views(x.poly@), size), domain_element(n, j as nat)))
}

/// The values the concatenation's permutation argument reads: each input
/// vector's values on the domain, then each output vector's raw values.
pub open spec fn io_values(inputs: Seq<Data>, outputs: Seq<Data>, n: nat) -> Seq<Seq<nat>> {
    Seq::new(inputs.len(), |i: int| input_values(inputs[i], n)) + Seq::new(
        outputs.len(),
        |i: int| fe_views(outputs[i].raw@),
    )
}

/// The commitments of the vectors, the inputs' then the outputs'.
pub open spec fn io_commitments(inputs: Seq<Data>, outputs: Seq<Data>) -> Seq<(nat, nat, nat)> {
    Seq::new(inputs.len(), |i: int| inputs[i].g1@) + Seq::new(outputs.len(), |i: int| outputs[i].g1@)
}

/// What the first rounds accept: output vectors of `n >= 1` values (at
/// least `n - 1` in each), one pair of blinds, one fresh scalar and one
/// own blinding scalar per vector, permutation values reaching `n - 1`
/// points for every vector, and powers beyond `n + 1`.
pub open spec fn concat_rounds_accept(
    srs: SRS,
    ssig: Seq<Vec<Fe>>,
    inputs: Seq<Data>,
    outputs: Seq<Data>,
    blinds: Seq<(Fe, Fe)>,
    rs: Seq<Fe>,
    own: Seq<Fe>,
) -> bool {
    let m = inputs.len() + outputs.len();
    let n = outputs[0].raw@.len();
    &&& outputs.len() >= 1
    &&& 1 <= n <= 268435456
    &&& forall|i: int| 0 <= i < outputs.len() ==> #[trigger] outputs[i].raw@.len() >= n - 1
    &&& m < 2147483647
    &&& blinds.len() == m && rs.len() == m && own.len() == m
    &&& ssig.len() >= m
    &&& all_reach(ssig, n - 1)
    &&& srs.X1P@.len() > n + 1
}

/// The first rounds of the concatenation's prover, for its vectors (the
/// inputs' then the outputs', `n` the outputs' length), the permutation's
/// values `ssig` on the domain, the vectors' blinds, the fresh scalars
/// `rs`, the vectors' own blinding scalars `own`, the challenges `w`,
/// `beta`, `gamma` (drawn by the caller from the transcript) and the grand
/// product's blinds: the blinded commitments, the quotient and matching
/// commitments, the grand product and its commitment. There is none when
/// a denominator of the grand product is zero.
pub fn concat_commit_rounds(
    srs: &SRS,
    ssig: &Vec<Vec<Fe>>,
    inputs: &Vec<Data>,
    outputs: &Vec<Data>,
    blinds: &Vec<(Fe, Fe)>,
    rs: &Vec<Fe>,
    own: &Vec<Fe>,
    w: &Fe,
    beta: &Fe,
    gamma: &Fe,
    z_blind: (Fe, Fe, Fe),
) -> (r: Option<(Vec<G1>, G1, G1, Vec<Fe>, G1)>)
    requires
        concat_rounds_accept(*srs, ssig@, inputs@, outputs@, blinds@, rs@, own@),
    ensures
        ({
            let n = outputs@[0].raw@.len();
            let io = io_values(inputs@, outputs@, n);
            let m = (inputs@.len() + outputs@.len()) as nat;
            let x1p = g1_views(srs.X1P@);
            let b = blinds@.map_values(|p: (Fe, Fe)| (p.0@, p.1@));
            &&& r is None <==> exists|j: nat|
                j < n - 1 && #[trigger] vden_prod(io, polys_view(ssig@), j as int, beta@, gamma@, m) == 0
            &&& r matches Some(t) ==> {
                &&& t.0@.len() == m
                &&& forall|i: int|
                    0 <= i < m ==> (#[trigger] t.0@[i])@ == blinded_commitment(
                        x1p,
                        n as int,
                        io_commitments(inputs@, outputs@)[i],
                        b[i].0,
                        b[i].1,
                    )
                &&& t.1@ == quotient_blind_sum(x1p, srs.Y1P@, b, fe_views(rs@), w@, m)
                &&& t.2@ == blind_match_sum(x1p, n as int, fe_views(rs@), fe_views(own@), w@, m)
                &&& t.3@.len() == n
                &&& forall|j: int|
                    0 <= j < n ==> (#[trigger] t.3@[j])@ == value_grand_product(io, polys_view(ssig@), n, beta@, gamma@, j as nat)
                &&& t.4@ == msm_zip(
                    projs(affine_views(srs.X1A@)),
                    trim(blinded3(interpolate(fe_views(t.3@)), next_pow_spec(n), (z_blind.0@, z_blind.1@, z_blind.2@))),
                )
            }
        }),
{
    let n = outputs[0].raw.len();
    let ghost want = io_values(inputs@, outputs@, n as nat);
    let mut io: Vec<Vec<Fe>> = Vec::new();
    let mut g1s: Vec<G1> = Vec::new();
    let mut i: usize = 0;
    while i < inputs.len()
        invariant
            1 <= n <= 268435456,
            want == io_values(inputs@, outputs@, n as nat),
            i <= inputs@.len(),
            io@.len() == i,
            g1s@.len() == i,
            forall|k: int| 0 <= k < i ==> #[trigger] fe_views(io@[k]@) == want[k],
            forall|k: int| 0 <= k < i ==> #[trigger] g1s@[k]@ == io_commitments(inputs@, outputs@)[k],
            forall|k: int| 0 <= k < i ==> #[trigger] io@[k]@.len() == next_pow_spec(n as nat),
        decreases inputs@.len() - i,
    {
        let e = evaluate_on_domain_at(&inputs[i].poly, n);
        proof {
            assert(fe_views(e@) =~= input_values(inputs@[i as int], n as nat));
        }
        io.push(e);
        g1s.push(inputs[i].g1);
        i = i + 1;
    }
    proof {
        lemma_next_pow(n as nat);
    }
    let mut k: usize = 0;
    while k < outputs.len()
        invariant
            1 <= n <= 268435456,
            n == outputs@[0].raw@.len(),
            forall|o: int| 0 <= o < outputs@.len() ==> #[trigger] outputs@[o].raw@.len() >= n - 1,
            want == io_values(inputs@, outputs@, n as nat),
            k <= outputs@.len(),
            io@.len() == inputs@.len() + k,
            g1s@.len() == inputs@.len() + k,
            forall|q: int| 0 <= q < inputs@.len() + k ==> #[trigger] fe_views(io@[q]@) == want[q],
            forall|q: int| 0 <= q < inputs@.len() + k ==> #[trigger] g1s@[q]@ == io_commitments(inputs@, outputs@)[q],
            forall|q: int| 0 <= q < inputs@.len() + k ==> #[trigger] io@[q]@.len() >= n - 1,
        decreases outputs@.len() - k,
    {
        let raw = &outputs[k].raw;
        let v = sub_vec(raw, 0, raw.len());
        proof {
            assert(v@ =~= outputs@[k as int].raw@);
        }
        io.push(v);
        g1s.push(outputs[k].g1);
        k = k + 1;
    }
    proof {
        assert(polys_view(io@) =~= want);
        assert(all_reach(io@, n - 1));
    }
    let fj = copy_blinded_commitments(&srs.X1P, &g1s, n, blinds);
    let (q, t) = blind_openings(&srs.X1P, &srs.Y1P, n, blinds, rs, own, w);
    match value_z_commitment(&srs.X1A, &io, ssig, n, beta, gamma, z_blind) {
        None => None,
        Some(z) => Some((fj, q, t, z.0, z.2)),
    }
}

/// The coefficients of the vectors' polynomials, the inputs' then the
/// outputs'.
pub open spec fn io_polys(inputs: Seq<Data>, outputs: Seq<Data>) -> Seq<Seq<nat>> {
    Seq::new(inputs.len(), |i: int| fe_views(inputs[i].poly@)) + Seq::new(
        outputs.len(),
        |i: int| fe_views(outputs[i].poly@),
    )
}

/// The larger of the first input's and the first output's lengths.
pub open spec fn copy_size(inputs: Seq<Data>, outputs: Seq<Data>) -> nat {
    let (a, b) = (inputs[0].raw@.len(), outputs[0].raw@.len());
    if a < b {
        b
    } else {
        a
    }
}

/// The first rounds of the copy constraint's prover, for its vectors (the
/// inputs' then the outputs'), the permutation's polynomials `ssig`, one
/// pair of blinds per vector, the challenges `beta` and `gamma` (drawn by
/// the caller from the transcript) and the grand product's blinds: the
/// blinded commitments, the grand product over the domain built for the
/// larger of the first input's and output's lengths, and the commitment to
/// its blinded polynomial. There is none when a denominator of the grand
/// product is zero.
pub fn copy_commit_rounds(
    srs: &SRS,
    ssig: &Vec<Vec<Fe>>,
    inputs: &Vec<Data>,
    outputs: &Vec<Data>,
    blinds: &Vec<(Fe, Fe)>,
    beta: &Fe,
    gamma: &Fe,
    z_blind: (Fe, Fe, Fe),
) -> (r: Option<(Vec<G1>, Vec<Fe>, G1)>)
    requires
        inputs@.len() >= 1,
        outputs@.len() >= 1,
        1 <= copy_size(inputs@, outputs@) <= 268435456,
        inputs@.len() + outputs@.len() < 2147483647,
        blinds@.len() == inputs@.len() + outputs@.len(),
        ssig@.len() >= inputs@.len() + outputs@.len(),
        srs.X1P@.len() > copy_size(inputs@, outputs@) + 1,
    ensures
        ({
            let n = copy_size(inputs@, outputs@);
            let f = io_polys(inputs@, outputs@);
            let m = (inputs@.len() + outputs@.len()) as nat;
            let b = blinds@.map_values(|p: (Fe, Fe)| (p.0@, p.1@));
            &&& r is None <==> exists|j: nat|
                j < n - 1 && #[trigger] super::copy_prove::den_prod(
                    f,
                    polys_view(ssig@),
                    domain_element(n, j),
                    beta@,
                    gamma@,
                    m,
                ) == 0
            &&& r matches Some(t) ==> {
                &&& t.0@.len() == m
                &&& forall|i: int|
                    0 <= i < m ==> (#[trigger] t.0@[i])@ == blinded_commitment(
                        g1_views(srs.X1P@),
                        n as int,
                        io_commitments(inputs@, outputs@)[i],
                        b[i].0,
                        b[i].1,
                    )
                &&& t.1@.len() == n
                &&& forall|j: int|
                    0 <= j < n ==> (#[trigger] t.1@[j])@ == grand_product(f, polys_view(ssig@), n, beta@, gamma@, j as nat)
                &&& t.2@ == msm_zip(
                    projs(affine_views(srs.X1A@)),
                    trim(blinded3(interpolate(fe_views(t.1@)), next_pow_spec(n), (z_blind.0@, z_blind.1@, z_blind.2@))),
                )
            }
        }),
{
    let a = inputs[0].raw.len();
    let c = outputs[0].raw.len();
    let n = if a < c {
        c
    } else {
        a
    };
    let mut polys: Vec<Vec<Fe>> = Vec::new();
    let mut g1s: Vec<G1> = Vec::new();
    let mut i: usize = 0;
    while i < inputs.len()
        invariant
            i <= inputs@.len(),
            polys@.len() == i,
            g1s@.len() == i,
            forall|k: int| 0 <= k < i ==> #[trigger] fe_views(polys@[k]@) == io_polys(inputs@, outputs@)[k],
            forall|k: int| 0 <= k < i ==> #[trigger] g1s@[k]@ == io_commitments(inputs@, outputs@)[k],
        decreases inputs@.len() - i,
    {
        let p = &inputs[i].poly;
        polys.push(sub_vec(p, 0, p.len()));
        proof {
            assert(p@.subrange(0, p@.len() as int) =~= p@);
        }
        g1s.push(inputs[i].g1);
        i = i + 1;
    }
    let mut k: usize = 0;
    while k < outputs.len()
        invariant
            k <= outputs@.len(),
            polys@.len() == inputs@.len() + k,
            g1s@.len() == inputs@.len() + k,
            forall|q: int| 0 <= q < inputs@.len() + k ==> #[trigger] fe_views(polys@[q]@) == io_polys(inputs@, outputs@)[q],
            forall|q: int| 0 <= q < inputs@.len() + k ==> #[trigger] g1s@[q]@ == io_commitments(inputs@, outputs@)[q],
        decreases outputs@.len() - k,
    {
        let p = &outputs[k].poly;
        polys.push(sub_vec(p, 0, p.len()));
        proof {
            assert(p@.subrange(0, p@.len() as int) =~= p@);
        }
        g1s.push(outputs[k].g1);
        k = k + 1;
    }
    proof {
        assert(polys_view(polys@) =~= io_polys(inputs@, outputs@));
    }
    let fj = copy_blinded_commitments(&srs.X1P, &g1s, n, blinds);
    match copy_z_commitment(&srs.X1A, &polys, ssig, n, beta, gamma, z_blind) {
        None => None,
        Some(z) => Some((fj, z.0, z.2)),
    }
}

} // verus!
