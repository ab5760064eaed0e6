//! The verifier's check of one folding step of lookup proofs: the proof's
//! challenge, and that the new accumulator is the old one plus the proof
//! times the folding challenge.
use super::cqlin_verify::{a1_views, a2_views, check_fold, check_values, folds_to};
use crate::accumulator::{acc_proof_to_cq_acc, cq_acc_proof_fits};
use crate::curve::{g2_add, g2_add_at, g2_affine, g2_affine_at, g2_proj_view, g2_scale, g2_scale_at, G1Affine, G2Affine};
use crate::field::{fadd, fe_views, fmul, Fe};
use vstd::prelude::*;

verus! {

/// `y + x * g`, in affine form, is `z`, on the twist.
pub open spec fn folds_to2(
    y: ((nat, nat), (nat, nat), bool),
    x: ((nat, nat), (nat, nat), bool),
    g: nat,
    z: ((nat, nat), (nat, nat), bool),
) -> bool {
    g2_affine(g2_add(g2_proj_view(y), g2_scale(g2_proj_view(x), g))) == z
}

/// The factor of a verifier's accumulated proof: its last value, zero for
/// the empty proof.
pub open spec fn acc_factor(f: Seq<Fe>) -> nat {
    if f.len() == 0 {
        0
    } else {
        f[f.len() - 1]@
    }
}

/// The inputs `cq_acc_verify` accepts: a proof of 14 and 2 points and at
/// least one value, a non-empty new accumulated proof, and a previous one
/// that is non-empty or, at the first step, empty with a new factor of one.
pub open spec fn cq_verify_accepts(
    prev: (Seq<G1Affine>, Seq<G2Affine>, Seq<Fe>),
    acc: (Seq<G1Affine>, Seq<G2Affine>, Seq<Fe>),
    proof: (Seq<G1Affine>, Seq<G2Affine>, Seq<Fe>),
) -> bool {
    &&& proof.0.len() == 14 && proof.1.len() == 2 && proof.2.len() >= 1
    &&& acc.0.len() > 0
    &&& (prev.0.len() > 0 || acc_factor(acc.2) == 1)
    &&& cq_acc_proof_fits(prev.0, prev.1, prev.2, false)
    &&& cq_acc_proof_fits(acc.0, acc.1, acc.2, false)
}

/// What `cq_acc_verify` answers: `beta` is the proof's first value, and,
/// unless the old accumulator is fresh (factor zero) and the new one is the
/// first proof itself (factor one), the first nine accumulated points (the
/// others hold blinding), both second-group points and the accumulated value
/// are the old ones plus the proof's times `ag`.
pub open spec fn cq_verify_result(
    prev: (Seq<G1Affine>, Seq<G2Affine>, Seq<Fe>),
    acc: (Seq<G1Affine>, Seq<G2Affine>, Seq<Fe>),
    proof: (Seq<G1Affine>, Seq<G2Affine>, Seq<Fe>),
    beta: nat,
    ag: nat,
) -> bool {
    let f = fe_views(proof.2);
    let (pf, af) = (fe_views(prev.2), fe_views(acc.2));
    let chal = beta == f[0];
    if acc_factor(prev.2) == 0 && acc_factor(acc.2) == 1 {
        chal
    } else {
        let (p, pa, aa) = (a1_views(proof.0), a1_views(prev.0), a1_views(acc.0));
        let (q, pq, aq) = (a2_views(proof.1), a2_views(prev.1), a2_views(acc.1));
        &&& chal
        &&& forall|i: int| 0 <= i < 9 ==> folds_to(pa[i], #[trigger] p[i], ag, aa[i])
        &&& forall|i: int| 0 <= i < 2 ==> folds_to2(pq[i], #[trigger] q[i], ag, aq[i])
        &&& fadd(pf[0], fmul(f[0], ag)) == af[0]
    }
}

/// Checks one folding step of lookup proofs as the verifier sees it, with
/// the proof's challenge `beta` and the folding challenge `acc_gamma` (both
/// drawn by the caller from the transcript). The answer is always `Some`.
pub fn cq_acc_verify(
    prev: (&Vec<G1Affine>, &Vec<G2Affine>, &Vec<Fe>),
    acc: (&Vec<G1Affine>, &Vec<G2Affine>, &Vec<Fe>),
    proof: (&Vec<G1Affine>, &Vec<G2Affine>, &Vec<Fe>),
    beta: &Fe,
    acc_gamma: &Fe,
) -> (r: Option<bool>)
    requires
        cq_verify_accepts((prev.0@, prev.1@, prev.2@), (acc.0@, acc.1@, acc.2@), (proof.0@, proof.1@, proof.2@)),
    ensures
        r == Some(cq_verify_result((prev.0@, prev.1@, prev.2@), (acc.0@, acc.1@, acc.2@), (proof.0@, proof.1@, proof.2@), beta@, acc_gamma@)),
{
    let ph = acc_proof_to_cq_acc(prev, false);
    let ah = acc_proof_to_cq_acc(acc, false);
    let chal = beta.eq(&proof.2[0]);
    if ph.mu.eq(&Fe::zero()) && ah.mu.eq(&Fe::one()) {
        return Some(chal);
    }
    proof {
        if prev.0@.len() == 0 {
            assert(ph.mu@ == 0);
            assert(ah.mu@ == acc_factor(acc.2@));
        }
        assert(prev.0@.len() > 0);
    }
    let mut c_g1 = true;
    let mut i: usize = 0;
    while i < 9
        invariant
            cq_verify_accepts((prev.0@, prev.1@, prev.2@), (acc.0@, acc.1@, acc.2@), (proof.0@, proof.1@, proof.2@)),
            proof.0@.len() == 14,
            prev.0@.len() > 0,
            ph.acc_g1@ == prev.0@.subrange(0, 14),
            ah.acc_g1@ == acc.0@.subrange(0, 14),
            i <= 9,
            c_g1 == forall|k: int| 0 <= k < i ==> folds_to(a1_views(prev.0@)[k], #[trigger] a1_views(proof.0@)[k], acc_gamma@, a1_views(acc.0@)[k]),
        decreases 9 - i,
    {
        let c = check_fold(&ph.acc_g1[i], &proof.0[i], acc_gamma, &ah.acc_g1[i]);
        proof {
            assert(a1_views(prev.0@)[i as int] == ph.acc_g1@[i as int]@);
            assert(a1_views(acc.0@)[i as int] == ah.acc_g1@[i as int]@);
            assert(a1_views(proof.0@)[i as int] == proof.0@[i as int]@);
        }
        c_g1 = c_g1 && c;
        i = i + 1;
    }
    let mut c_g2 = true;
    let mut j: usize = 0;
    while j < 2
        invariant
            cq_verify_accepts((prev.0@, prev.1@, prev.2@), (acc.0@, acc.1@, acc.2@), (proof.0@, proof.1@, proof.2@)),
            proof.1@.len() == 2,
            prev.0@.len() > 0,
            ph.acc_g2@ == prev.1@.subrange(0, 2),
            ah.acc_g2@ == acc.1@.subrange(0, 2),
            j <= 2,
            c_g2 == forall|k: int| 0 <= k < j ==> folds_to2(a2_views(prev.1@)[k], #[trigger] a2_views(proof.1@)[k], acc_gamma@, a2_views(acc.1@)[k]),
        decreases 2 - j,
    {
        let t = g2_scale_at(&proof.1[j].to_projective(), acc_gamma);
        let z = g2_affine_at(&g2_add_at(&ph.acc_g2[j].to_projective(), &t));
        let c = z.same(&ah.acc_g2[j]);
        proof {
            assert(a2_views(prev.1@)[j as int] == ph.acc_g2@[j as int]@);
            assert(a2_views(acc.1@)[j as int] == ah.acc_g2@[j as int]@);
            assert(a2_views(proof.1@)[j as int] == proof.1@[j as int]@);
        }
        c_g2 = c_g2 && c;
        j = j + 1;
    }
    let c_fr = check_values(proof.2, &ph.acc_fr, &ah.acc_fr, 1, acc_gamma);
    proof {
        assert(fe_views(ph.acc_fr@)[0] == fe_views(prev.2@)[0]);
        assert(fe_views(ah.acc_fr@)[0] == fe_views(acc.2@)[0]);
        assert(c_fr == (fadd(fe_views(prev.2@)[0], fmul(fe_views(proof.2@)[0], acc_gamma@)) == fe_views(acc.2@)[0]));
        assert(acc_factor(prev.2@) == ph.mu@);
        assert(acc_factor(acc.2@) == ah.mu@);
        assert(fe_views(proof.2@)[0] == proof.2@[0]@);
        let (p, pa, aa) = (a1_views(proof.0@), a1_views(prev.0@), a1_views(acc.0@));
        let (q, pq, aq) = (a2_views(proof.1@), a2_views(prev.1@), a2_views(acc.1@));
        assert(c_g1 == forall|k: int| 0 <= k < 9 ==> folds_to(pa[k], #[trigger] p[k], acc_gamma@, aa[k]));
        assert(c_g2 == forall|k: int| 0 <= k < 2 ==> folds_to2(pq[k], #[trigger] q[k], acc_gamma@, aq[k]));
        assert(chal == (beta@ == fe_views(proof.2@)[0]));
        assert(!(acc_factor(prev.2@) == 0 && acc_factor(acc.2@) == 1));
    }
    Some(chal && c_g1 && c_g2 && c_fr)
}

} // verus!
