use ark_ff::{BigInt, Field, PrimeField};
use ark_poly::{DenseUVPolynomial, EvaluationDomain, GeneralEvaluationDomain, Polynomial};
use zk_torch::basic_block::copy_prove::{blind_openings, copy_blinded_commitments, copy_grand_product, copy_z_commitment, value_z_commitment};
use zk_torch::basic_block::cq_fold::cq_acc_prove;
use zk_torch::basic_block::cqlin_fold::cqlin_acc_prove;
use zk_torch::basic_block::mul_elementwise;
use zk_torch::basic_block::concat_prove::{concat_commit_rounds, copy_commit_rounds};
use zk_torch::basic_block::{Data, DataEnc, SRS};
use zk_torch::basic_block::cq_verify::cq_acc_verify;
use zk_torch::basic_block::cqlin_verify::cqlin_acc_verify;
use zk_torch::basic_block::transcript::{cq_fold_absorbed, cqlin_fold_absorbed, Absorbed};
use zk_torch::curve::{msm, Fq, G1Affine, G2Affine, G1, G2};
use zk_torch::field::{fr_to_int, Fe};

fn generator() -> G1 {
    G1 { x: Fq::from_u64(1), y: Fq::from_u64(2), z: Fq::from_u64(1) }
}

fn ark_fr(x: &Fe) -> ark_bn254::Fr {
    ark_bn254::Fr::from_bigint(BigInt(x.limbs())).unwrap()
}

fn ark_fq(x: &Fq) -> ark_bn254::Fq {
    ark_bn254::Fq::from_bigint(BigInt(x.limbs())).unwrap()
}

fn ark_affine(g: &G1) -> ark_bn254::G1Affine {
    ark_bn254::G1Affine::from(ark_bn254::G1Projective::new_unchecked(ark_fq(&g.x), ark_fq(&g.y), ark_fq(&g.z)))
}

fn ark_generator() -> ark_bn254::G1Projective {
    ark_bn254::G1Projective::new_unchecked(ark_bn254::Fq::from(1u64), ark_bn254::Fq::from(2u64), ark_bn254::Fq::from(1u64))
}

#[test]
fn msm_matches_the_group_sum() {
    let g = generator();
    let p = msm(&vec![g, g, g], &vec![Fe::from_u64(2), Fe::from_u64(3), Fe::from_u64(5)]);
    let want = ark_bn254::G1Affine::from(ark_generator() * ark_bn254::Fr::from(10u64));
    assert_eq!(ark_affine(&p), want);
    let zero = msm(&vec![g], &vec![]);
    assert_eq!(zero, G1::zero());
}

#[test]
fn data_commits_to_a_blinded_interpolation() {
    let g = generator();
    // Bases g * (i + 7).
    let srs: Vec<G1> = (0..6).map(|i| msm(&vec![g], &vec![Fe::from_u64(i + 7)])).collect();
    let raw = vec![Fe::from_u64(3), Fe::from_u64(1), Fe::from_i64(-4)];
    let blind = (Fe::from_u64(11), Fe::from_u64(13));
    let d = Data::new(&srs, &raw, blind);
    assert_eq!(d.raw, raw);
    // The domain has size 4 and the blinding two more coefficients.
    assert_eq!(d.poly.len(), 6);
    let poly = ark_poly::univariate::DensePolynomial::from_coefficients_vec(d.poly.iter().map(ark_fr).collect());
    let domain = GeneralEvaluationDomain::<ark_bn254::Fr>::new(3).unwrap();
    let want = [3i64, 1, -4, 0];
    for (i, w) in domain.elements().enumerate() {
        let v = poly.evaluate(&w);
        let back = Fe::from_i64(want[i]);
        assert_eq!(v, ark_fr(&back));
    }
    // The top coefficients are the blinds.
    assert_eq!(d.poly[4], blind.0);
    assert_eq!(d.poly[5], blind.1);
    // The commitment is sum poly[i] * (i + 7) * g.
    let s: ark_bn254::Fr = d.poly.iter().enumerate().map(|(i, c)| ark_fr(c) * ark_bn254::Fr::from(i as u64 + 7)).sum();
    let enc = DataEnc::new(&d);
    assert_eq!(enc.len, 3);
    let want_g1 = ark_bn254::G1Affine::from(ark_generator() * s);
    assert_eq!(ark_affine(&d.g1), want_g1);
    assert_eq!(ark_fq(&enc.g1.x), want_g1.x);
    assert_eq!(ark_fq(&enc.g1.y), want_g1.y);
    assert!(!enc.g1.infinity);
}

#[test]
fn zero_data_commits_to_the_identity() {
    let g = generator();
    let srs = vec![g; 4];
    let d = Data::new(&srs, &vec![Fe::zero(), Fe::zero()], (Fe::zero(), Fe::zero()));
    assert!(d.poly.is_empty());
    assert_eq!(d.g1, G1::zero());
    assert!(DataEnc::new(&d).g1.infinity);
}

fn g2_zero() -> G2 {
    G2 { x: (Fq::from_u64(1), Fq::from_u64(0)), y: (Fq::from_u64(1), Fq::from_u64(0)), z: (Fq::from_u64(0), Fq::from_u64(0)) }
}

#[test]
fn lookup_folding_combines_with_the_challenge() {
    let g = generator();
    let proof = (vec![g; 20], vec![g2_zero(); 2], (1..=5).map(Fe::from_u64).collect::<Vec<_>>());
    // A prover's accumulated proof: 20 + 24 first-group, 10 second-group,
    // 5 values, one error value and the factor mu.
    let mut af: Vec<Fe> = (10..=14).map(Fe::from_u64).collect();
    af.push(Fe::from_u64(9));
    af.push(Fe::from_u64(3));
    let acc = (vec![g; 44], vec![g2_zero(); 10], af);
    let gamma = Fe::from_u64(2);
    let r = cq_acc_prove(&g, &g, (&acc.0, &acc.1, &acc.2), (&proof.0, &proof.1, &proof.2), &gamma);
    assert_eq!(r.acc_g1.len(), 20);
    assert_eq!(r.acc_g2.len(), 2);
    // acc_fr[k] = f[k] * 2 + af[k].
    assert_eq!(r.acc_fr.iter().map(fr_to_int).collect::<Vec<_>>(), vec![12, 15, 18, 21, 24]);
    assert_eq!(fr_to_int(&r.mu), 5);
    assert_eq!(r.errs.len(), 2);
    assert_eq!((r.errs[0].0.len(), r.errs[0].1.len(), r.errs[0].2.len()), (7, 2, 0));
    assert_eq!((r.errs[1].0.len(), r.errs[1].1.len()), (5, 2));
    assert_eq!(fr_to_int(&r.errs[1].2[0]), -6);
    assert_eq!((r.acc_errs[0].0.len(), r.acc_errs[0].1.len()), (11, 4));
    assert_eq!((r.acc_errs[1].0.len(), r.acc_errs[1].1.len()), (7, 4));
    assert_eq!(fr_to_int(&r.acc_errs[1].2[0]), -12);
    // acc_g1[0] = g * 2 + g = 3g.
    assert_eq!(ark_affine(&r.acc_g1[0]), ark_bn254::G1Affine::from(ark_generator() * ark_bn254::Fr::from(3u64)));
    // The second error element of the lookup side is the accumulated A_x, here g.
    assert_eq!(ark_affine(&r.errs[0].0[1]), ark_affine(&g));
}

#[test]
fn grand_product_runs_the_ratio_over_the_domain() {
    let one = Fe::one();
    // One polynomial f = 5 and permutation polynomial s = 1: the identity,
    // so every ratio is one.
    let z = copy_grand_product(&vec![vec![Fe::from_u64(5)]], &vec![vec![one]], 2, &one, &Fe::zero()).unwrap();
    assert_eq!(z, vec![one, one]);
    // With s = 2 the first ratio is (1 + 5) / (2 + 5).
    let z = copy_grand_product(&vec![vec![Fe::from_u64(5)]], &vec![vec![Fe::from_u64(2)]], 2, &one, &Fe::zero()).unwrap();
    assert_eq!(z[0], one);
    assert_eq!(fr_to_int(&mul_elementwise(&vec![z[1]], &vec![Fe::from_u64(7)])[0]), 6);
    // A zero denominator gives none.
    let none = copy_grand_product(&vec![vec![Fe::from_i64(-2)]], &vec![vec![Fe::from_u64(2)]], 2, &one, &Fe::zero());
    assert!(none.is_none());
    // The polynomial is evaluated: f = 1 + x at the domain points 1 and -1 of a domain of size 2.
    let z = copy_grand_product(&vec![vec![one, one]], &vec![vec![one]], 3, &Fe::zero(), &one).unwrap();
    // beta = 0: ratios are (f(w^j) + 1) / (f(w^j) + 1) = 1 while f(w^j) + 1 != 0.
    assert_eq!(z.len(), 3);
    assert_eq!(z[2], one);
}

#[test]
fn linear_lookup_folding_combines_with_the_challenge() {
    let g = generator();
    let proof = (vec![g; 20], vec![g2_zero()], (1..=4).map(Fe::from_u64).collect::<Vec<_>>());
    // One sumcheck round: 20 + 20 first-group, 3 second-group and 6 values.
    let acc = (vec![g; 40], vec![g2_zero(); 3], (5..=10).map(Fe::from_u64).collect::<Vec<_>>());
    let gamma = Fe::from_u64(3);
    let r = cqlin_acc_prove(&g, 1, (&acc.0, &acc.1, &acc.2), (&proof.0, &proof.1, &proof.2), &gamma);
    assert_eq!(r.acc_g1.len(), 20);
    assert_eq!(r.acc_g2.len(), 1);
    assert_eq!(r.acc_fr.iter().map(fr_to_int).collect::<Vec<_>>(), vec![8, 12, 16, 20]);
    assert_eq!(fr_to_int(&r.mu), 13);
    assert_eq!(r.errs.len(), 4);
    assert_eq!((r.errs[0].0.len(), r.errs[0].1.len()), (5, 2));
    assert_eq!((r.errs[1].0.len(), r.errs[2].0.len()), (3, 3));
    // The round's error: 1*5 + 1*5 - 6 - 2*10.
    assert_eq!(fr_to_int(&r.errs[3].2[0]), -16);
    assert_eq!(r.acc_errs.len(), 4);
    assert_eq!((r.acc_errs[0].0.len(), r.acc_errs[0].1.len()), (5, 2));
    assert_eq!(fr_to_int(&r.acc_errs[3].2[0]), 10 - 48);
    // The second error element of the lookup term is the accumulated A, here g.
    assert_eq!(ark_affine(&r.errs[0].0[1]), ark_affine(&g));
}

fn g1_inf() -> G1Affine {
    G1Affine { x: Fq::from_u64(0), y: Fq::from_u64(0), infinity: true }
}

fn g2_inf() -> G2Affine {
    G2Affine { x: (Fq::from_u64(0), Fq::from_u64(0)), y: (Fq::from_u64(0), Fq::from_u64(0)), infinity: true }
}

fn fes(v: &[u64]) -> Vec<Fe> {
    v.iter().map(|x| Fe::from_u64(*x)).collect()
}

#[test]
fn linear_lookup_folding_is_checked() {
    // One sumcheck round; all points at infinity, so only the values decide.
    let proof = (vec![g1_inf(); 15], vec![g2_inf()], fes(&[2, 4]));
    let prev = (vec![g1_inf(); 37], vec![g2_inf(); 3], fes(&[1, 1, 0, 7, 3]));
    let acc = (vec![g1_inf(); 37], vec![g2_inf(); 3], fes(&[21, 41, 5, 57, 13]));
    let inputs = vec![g1_inf(); 2];
    let (alpha, gamma, ag) = (Fe::from_u64(5), Fe::from_u64(2), Fe::from_u64(10));
    let check = |acc: &(Vec<G1Affine>, Vec<G2Affine>, Vec<Fe>), gamma: &Fe| {
        cqlin_acc_verify(&inputs, &inputs, 1, (&prev.0, &prev.1, &prev.2), (&acc.0, &acc.1, &acc.2), (&proof.0, &proof.1, &proof.2), &alpha, gamma, &ag)
    };
    assert_eq!(check(&acc, &gamma), Some(true));
    // A wrong challenge, a wrong accumulated value, a wrong round error.
    assert_eq!(check(&acc, &Fe::from_u64(3)), Some(false));
    let mut bad = acc.clone();
    bad.2[1] = Fe::from_u64(42);
    assert_eq!(check(&bad, &gamma), Some(false));
    let mut bad = acc.clone();
    bad.2[3] = Fe::from_u64(58);
    assert_eq!(check(&bad, &gamma), Some(false));
    // A fresh accumulator (factor 0) folded into the first proof (factor 1):
    // only the challenges are checked.
    let fresh = (prev.0.clone(), prev.1.clone(), fes(&[1, 1, 0, 7, 0]));
    let first = (acc.0.clone(), acc.1.clone(), fes(&[9, 9, 9, 9, 1]));
    let r = cqlin_acc_verify(&inputs, &inputs, 1, (&fresh.0, &fresh.1, &fresh.2), (&first.0, &first.1, &first.2), (&proof.0, &proof.1, &proof.2), &alpha, &gamma, &ag);
    assert_eq!(r, Some(true));
}

#[test]
fn lookup_folding_is_checked() {
    let proof = (vec![g1_inf(); 14], vec![g2_inf(); 2], fes(&[2]));
    let prev = (vec![g1_inf(); 38], vec![g2_inf(); 10], fes(&[1, 0, 3]));
    let acc = (vec![g1_inf(); 38], vec![g2_inf(); 10], fes(&[21, 0, 13]));
    let (beta, ag) = (Fe::from_u64(2), Fe::from_u64(10));
    let check = |acc: &(Vec<G1Affine>, Vec<G2Affine>, Vec<Fe>), beta: &Fe| {
        cq_acc_verify((&prev.0, &prev.1, &prev.2), (&acc.0, &acc.1, &acc.2), (&proof.0, &proof.1, &proof.2), beta, &ag)
    };
    assert_eq!(check(&acc, &beta), Some(true));
    assert_eq!(check(&acc, &Fe::from_u64(5)), Some(false));
    let mut bad = acc.clone();
    bad.2[0] = Fe::from_u64(22);
    assert_eq!(check(&bad, &beta), Some(false));
    // A point that is not the fold of the old one and the proof's.
    let mut bad = acc.clone();
    bad.0[0] = G1Affine { x: Fq::from_u64(1), y: Fq::from_u64(2), infinity: false };
    assert_eq!(check(&bad, &beta), Some(false));
}

#[test]
fn lookup_folding_accepts_an_empty_first_accumulator() {
    let proof = (vec![g1_inf(); 14], vec![g2_inf(); 2], fes(&[2]));
    let empty: (Vec<G1Affine>, Vec<G2Affine>, Vec<Fe>) = (vec![], vec![], vec![]);
    // The new accumulator is the first proof itself: factor one.
    let first = (vec![g1_inf(); 38], vec![g2_inf(); 10], fes(&[9, 0, 1]));
    let ag = Fe::from_u64(10);
    let r = cq_acc_verify((&empty.0, &empty.1, &empty.2), (&first.0, &first.1, &first.2), (&proof.0, &proof.1, &proof.2), &Fe::from_u64(2), &ag);
    assert_eq!(r, Some(true));
    let r = cq_acc_verify((&empty.0, &empty.1, &empty.2), (&first.0, &first.1, &first.2), (&proof.0, &proof.1, &proof.2), &Fe::from_u64(3), &ag);
    assert_eq!(r, Some(false));
}

#[test]
fn linear_lookup_folding_accepts_an_empty_first_accumulator() {
    let proof = (vec![g1_inf(); 15], vec![g2_inf()], fes(&[2, 4]));
    let empty: (Vec<G1Affine>, Vec<G2Affine>, Vec<Fe>) = (vec![], vec![], vec![]);
    let first = (vec![g1_inf(); 37], vec![g2_inf(); 3], fes(&[9, 9, 9, 9, 1]));
    let inputs = vec![g1_inf(); 2];
    let (alpha, ag) = (Fe::from_u64(5), Fe::from_u64(10));
    let r = cqlin_acc_verify(&inputs, &inputs, 1, (&empty.0, &empty.1, &empty.2), (&first.0, &first.1, &first.2), (&proof.0, &proof.1, &proof.2), &alpha, &Fe::from_u64(2), &ag);
    assert_eq!(r, Some(true));
    let r = cqlin_acc_verify(&inputs, &inputs, 1, (&empty.0, &empty.1, &empty.2), (&first.0, &first.1, &first.2), (&proof.0, &proof.1, &proof.2), &alpha, &Fe::from_u64(3), &ag);
    assert_eq!(r, Some(false));
}

#[test]
fn empty_data_uses_a_domain_of_one_point() {
    let g = generator();
    let srs = vec![g; 3];
    let d = Data::new(&srs, &vec![], (Fe::zero(), Fe::zero()));
    assert!(d.raw.is_empty());
    assert!(d.poly.is_empty());
    assert_eq!(d.g1, G1::zero());
    // With blinds (2, 5): (2 + 5X)(X - 1) = -2 - 3X + 5X^2.
    let d = Data::new(&srs, &vec![], (Fe::from_u64(2), Fe::from_u64(5)));
    assert_eq!(d.poly, vec![Fe::from_i64(-2), Fe::from_i64(-3), Fe::from_u64(5)]);
}

fn points_of(a: &Absorbed) -> usize {
    match a {
        Absorbed::Points1(v) => v.len(),
        Absorbed::Points2(v) => v.len(),
        Absorbed::Values(v) => v.len(),
        Absorbed::Targets(v) => v.len(),
    }
}

#[test]
fn folding_transcripts_absorb_the_shared_parts() {
    let g = generator();
    let pts: Vec<G1> = (0..20).map(|i| msm(&vec![g], &vec![Fe::from_u64(i + 1)])).collect();
    let acc = (pts.clone(), vec![g2_zero(); 2], fes(&[7, 8, 9, 10, 11]));
    let proof = (pts.clone(), vec![g2_zero(); 2], fes(&[1, 2, 3, 4, 5]));
    let errs = vec![(vec![g], vec![g2_zero()], fes(&[6]))];
    let r = cq_fold_absorbed((&acc.0, &acc.1, &acc.2), (&proof.0, &proof.1, &proof.2), &errs);
    assert_eq!(r.iter().map(points_of).collect::<Vec<_>>(), vec![9, 2, 1, 14, 2, 1, 1, 1, 1]);
    match &r[2] {
        Absorbed::Values(v) => assert_eq!(v, &fes(&[7])),
        _ => panic!("values expected"),
    }
    match &r[3] {
        Absorbed::Points1(v) => assert_eq!(v[13], pts[13]),
        _ => panic!("points expected"),
    }
    // One round: log n = 1, so the first two values of each.
    let acc = (pts.clone(), vec![g2_zero()], fes(&[7, 8, 9, 10]));
    let proof = (pts.clone(), vec![g2_zero()], fes(&[1, 2, 3, 4]));
    let r = cqlin_fold_absorbed(1, (&acc.0, &acc.1, &acc.2), (&proof.0, &proof.1, &proof.2), &vec![]);
    assert_eq!(r.iter().map(points_of).collect::<Vec<_>>(), vec![9, 2, 1, 2, 15, 1, 2]);
    match &r[1] {
        Absorbed::Points1(v) => assert_eq!(v, &vec![pts[15], pts[16]]),
        _ => panic!("points expected"),
    }
}

#[test]
fn copy_grand_product_is_committed_blinded() {
    type F = ark_bn254::Fr;
    let g = generator();
    let x1a: Vec<G1Affine> = (0..6).map(|i| DataEnc::new(&Data::new(&vec![g; 3], &vec![Fe::from_u64(i + 3)], (Fe::zero(), Fe::zero()))).g1).collect();
    let one = Fe::one();
    // With s = 2 the first ratio is (1 + 5) / (2 + 5) = 6 / 7.
    let blind = (Fe::from_u64(1), Fe::from_u64(2), Fe::from_u64(3));
    let (z, poly, c) = copy_z_commitment(&x1a, &vec![vec![Fe::from_u64(5)]], &vec![vec![Fe::from_u64(2)]], 2, &one, &Fe::zero(), blind).unwrap();
    assert_eq!(z.len(), 2);
    let z1 = F::from(6u64) * F::from(7u64).inverse().unwrap();
    assert_eq!(ark_fr(&z[1]), z1);
    // Z(X) through (1, z1) on {1, -1}, plus (1 + 2X + 3X^2)(X^2 - 1).
    let d = GeneralEvaluationDomain::<F>::new(2).unwrap();
    let zp = ark_poly::univariate::DensePolynomial::from_coefficients_vec(d.ifft(&[F::from(1u64), z1]));
    let b = ark_poly::univariate::DensePolynomial::from_coefficients_vec(vec![F::from(1u64), F::from(2u64), F::from(3u64)]);
    let v = ark_poly::univariate::DensePolynomial::from_coefficients_vec(vec![-F::from(1u64), F::from(0u64), F::from(1u64)]);
    let want = &zp + &(&b * &v);
    assert_eq!(poly.iter().map(ark_fr).collect::<Vec<_>>(), want.coeffs);
    // The commitment: sum poly[i] * (i + 3) * g.
    let sc: F = want.coeffs.iter().enumerate().map(|(i, k)| *k * F::from(i as u64 + 3)).sum();
    assert_eq!(ark_affine(&c), ark_bn254::G1Affine::from(ark_generator() * sc));
    // A zero denominator gives none.
    assert!(copy_z_commitment(&x1a, &vec![vec![Fe::from_i64(-2)]], &vec![vec![Fe::from_u64(2)]], 2, &one, &Fe::zero(), blind).is_none());
}

#[test]
fn copy_commitments_are_blinded_on_the_vanishing_polynomial() {
    let g = generator();
    let times = |k: u64| msm(&vec![g], &vec![Fe::from_u64(k)]);
    // X1P[i] = (i + 1) g; n = 2.
    let x1p: Vec<G1> = (0..6).map(|i| times(i + 1)).collect();
    let r = copy_blinded_commitments(&x1p, &vec![times(7), times(10)], 2, &vec![(Fe::from_u64(2), Fe::from_u64(3)), (Fe::zero(), Fe::zero())]);
    // (4 - 2) * 3 + (3 - 1) * 2 + 7 = 17, and no blinding leaves 10.
    assert_eq!(ark_affine(&r[0]), ark_affine(&times(17)));
    assert_eq!(ark_affine(&r[1]), ark_affine(&times(10)));
}

#[test]
fn concatenation_grand_product_reads_values_on_the_domain() {
    type F = ark_bn254::Fr;
    let g = generator();
    let x1a: Vec<G1Affine> = (0..6).map(|i| DataEnc::new(&Data::new(&vec![g; 3], &vec![Fe::from_u64(i + 3)], (Fe::zero(), Fe::zero()))).g1).collect();
    let one = Fe::one();
    // Two vectors, n = 2: at the first point (w^0 = 1), with beta = 1 and
    // gamma = 0, the ratio is (1 + 5)(2 + 7) / (2 + 5)(3 + 7) = 54 / 70.
    let v = vec![vec![Fe::from_u64(5), Fe::zero()], vec![Fe::from_u64(7), Fe::zero()]];
    let s = vec![vec![Fe::from_u64(2), Fe::zero()], vec![Fe::from_u64(3), Fe::zero()]];
    let zero3 = (Fe::zero(), Fe::zero(), Fe::zero());
    let (z, poly, c) = value_z_commitment(&x1a, &v, &s, 2, &one, &Fe::zero(), zero3).unwrap();
    let z1 = F::from(54u64) * F::from(70u64).inverse().unwrap();
    assert_eq!(z.len(), 2);
    assert_eq!(ark_fr(&z[1]), z1);
    // Without blinding the polynomial goes through (1, z1) on {1, -1}.
    let d = GeneralEvaluationDomain::<F>::new(2).unwrap();
    let want = d.ifft(&[F::from(1u64), z1]);
    assert_eq!(poly.iter().map(ark_fr).collect::<Vec<_>>(), want);
    let sc: F = want.iter().enumerate().map(|(i, k)| *k * F::from(i as u64 + 3)).sum();
    assert_eq!(ark_affine(&c), ark_bn254::G1Affine::from(ark_generator() * sc));
    // A zero denominator: beta s + v = 0 for the first vector.
    let s_bad = vec![vec![Fe::from_i64(-5), Fe::zero()], vec![Fe::from_u64(3), Fe::zero()]];
    assert!(value_z_commitment(&x1a, &v, &s_bad, 2, &one, &Fe::zero(), zero3).is_none());
}

#[test]
fn concatenation_blind_openings_weigh_with_the_challenge() {
    let g = generator();
    let times = |k: u64| msm(&vec![g], &vec![Fe::from_u64(k)]);
    let x1p: Vec<G1> = (0..6).map(|i| times(i + 1)).collect();
    let (q, t) = blind_openings(&x1p, &times(100), 2, &vec![(Fe::from_u64(2), Fe::from_u64(3))], &vec![Fe::from_u64(5)], &vec![Fe::from_u64(7)], &Fe::from_u64(2));
    // (2 * (-3) - 1 * 2 + 100 * 5) * 2 = 984 and ((3 - 1) * 5 - 1 * 7) * 2 = 6.
    assert_eq!(ark_affine(&q), ark_affine(&times(984)));
    assert_eq!(ark_affine(&t), ark_affine(&times(6)));
}

#[test]
fn concatenation_first_rounds_read_inputs_on_the_domain() {
    type F = ark_bn254::Fr;
    let g = generator();
    let times = |k: u64| msm(&vec![g], &vec![Fe::from_u64(k)]);
    let bases: Vec<G1> = (0..8).map(|i| times(i + 1)).collect();
    let x1a: Vec<G1Affine> = (0..8).map(|i| DataEnc::new(&Data::new(&vec![g; 3], &vec![Fe::from_u64(i + 1)], (Fe::zero(), Fe::zero()))).g1).collect();
    let srs = SRS { X1A: x1a, X2A: vec![], X1P: bases.clone(), X2P: vec![], Y1P: times(100), Y2A: g2_inf(), Y2P: g2_zero() };
    let raw = vec![Fe::from_u64(5), Fe::from_u64(6)];
    let input = Data::new(&bases, &raw, (Fe::zero(), Fe::zero()));
    let output = Data::new(&bases, &raw, (Fe::zero(), Fe::zero()));
    let ssig = vec![vec![Fe::from_u64(2), Fe::zero()], vec![Fe::from_u64(3), Fe::zero()]];
    let zero2 = (Fe::zero(), Fe::zero());
    let r = concat_commit_rounds(
        &srs, &ssig, &vec![input.clone()], &vec![output], &vec![zero2, zero2], &vec![Fe::zero(); 2], &vec![Fe::zero(); 2],
        &Fe::from_u64(2), &Fe::one(), &Fe::zero(), (Fe::zero(), Fe::zero(), Fe::zero()),
    )
    .unwrap();
    // The input's values on the domain are its raw values: at the first
    // point, (1 + 5)(2 + 5) / (2 + 5)(3 + 5).
    assert_eq!(ark_fr(&r.3[1]), F::from(42u64) * F::from(56u64).inverse().unwrap());
    // Without blinds the commitments are the vectors' own.
    assert_eq!(ark_affine(&r.0[0]), ark_affine(&input.g1));
}

#[test]
fn copy_constraint_first_rounds_evaluate_the_polynomials() {
    type F = ark_bn254::Fr;
    let g = generator();
    let times = |k: u64| msm(&vec![g], &vec![Fe::from_u64(k)]);
    let bases: Vec<G1> = (0..8).map(|i| times(i + 1)).collect();
    let x1a: Vec<G1Affine> = (0..8).map(|i| DataEnc::new(&Data::new(&vec![g; 3], &vec![Fe::from_u64(i + 1)], (Fe::zero(), Fe::zero()))).g1).collect();
    let srs = SRS { X1A: x1a, X2A: vec![], X1P: bases.clone(), X2P: vec![], Y1P: times(100), Y2A: g2_inf(), Y2P: g2_zero() };
    let raw = vec![Fe::from_u64(5), Fe::from_u64(6)];
    let input = Data::new(&bases, &raw, (Fe::zero(), Fe::zero()));
    let output = Data::new(&bases, &raw, (Fe::zero(), Fe::zero()));
    // Constant permutation polynomials 2 and 3.
    let ssig = vec![vec![Fe::from_u64(2)], vec![Fe::from_u64(3)]];
    let blinds = vec![(Fe::from_u64(1), Fe::zero()), (Fe::zero(), Fe::zero())];
    let r = copy_commit_rounds(&srs, &ssig, &vec![input.clone()], &vec![output.clone()], &blinds, &Fe::one(), &Fe::zero(), (Fe::zero(), Fe::zero(), Fe::zero())).unwrap();
    // Both polynomials are 5 at the first point: (1 + 5)(2 + 5) / (2 + 5)(3 + 5).
    assert_eq!(r.1.len(), 2);
    assert_eq!(ark_fr(&r.1[1]), F::from(42u64) * F::from(56u64).inverse().unwrap());
    // The input is blinded by (X1P[2] - X1P[0]) * 1 = 2 g; the output is not.
    let want = ark_bn254::G1Affine::from(ark_bn254::G1Projective::from(ark_affine(&input.g1)) + ark_generator() * F::from(2u64));
    assert_eq!(ark_affine(&r.0[0]), want);
    assert_eq!(ark_affine(&r.0[1]), ark_affine(&output.g1));
}
