use ark_bn254::{Fq12, Fq2, Fq6};
use ark_ff::{BigInt, CyclotomicMultSubgroup, PrimeField};
use zk_torch::basic_block::matmul::{MatMulAccErrs, MatMulAccFiatShamir, MatMulAccProof, MatMulAccProofProverOnly, MatMulErrs};
use zk_torch::basic_block::matmul_fold::{matmul_accumulate, matmul_mira_errs, matmul_mira_prove, matmul_mira_verify};
use zk_torch::basic_block::transcript::{matmul_fold_absorbed, Absorbed};
use zk_torch::basic_block::{Data, DataEnc};
use zk_torch::curve::{msm, Fq, G1Affine, G2Affine, Gt, G1, G2};
use zk_torch::field::Fe;

fn generator() -> G1 {
    G1 { x: Fq::from_u64(1), y: Fq::from_u64(2), z: Fq::from_u64(1) }
}

fn ark_fq(x: &Fq) -> ark_bn254::Fq {
    ark_bn254::Fq::from_bigint(BigInt(x.limbs())).unwrap()
}

fn ark_g1(g: &G1) -> ark_bn254::G1Projective {
    ark_bn254::G1Projective::new_unchecked(ark_fq(&g.x), ark_fq(&g.y), ark_fq(&g.z))
}

fn ark_affine(g: &G1) -> ark_bn254::G1Affine {
    ark_bn254::G1Affine::from(ark_g1(g))
}

fn times(k: u64) -> G1 {
    msm(&vec![generator()], &vec![Fe::from_u64(k)])
}

fn fr(k: u64) -> ark_bn254::Fr {
    ark_bn254::Fr::from(k)
}

fn g2_zero() -> G2 {
    G2 { x: (Fq::from_u64(1), Fq::from_u64(0)), y: (Fq::from_u64(1), Fq::from_u64(0)), z: (Fq::from_u64(0), Fq::from_u64(0)) }
}

fn gt_of(v: [u64; 12]) -> Gt {
    Gt { c: v.map(Fq::from_u64) }
}

fn ark_gt(g: &Gt) -> Fq12 {
    // Coordinates c0.c0.c0, c0.c0.c1, c0.c1.c0, ... as Fq12 nests them.
    let e: Vec<Fq2> = g.c.chunks(2).map(|p| Fq2::new(ark_fq(&p[0]), ark_fq(&p[1]))).collect();
    Fq12::new(Fq6::new(e[0], e[1], e[2]), Fq6::new(e[3], e[4], e[5]))
}

fn proof_with(base: u64, mu: u64, gt: Gt) -> MatMulAccProof<G1, G2, Gt> {
    let p = |k: u64| times(base + k);
    MatMulAccProof {
        fiat_shamir: MatMulAccFiatShamir {
            acc_left_x: p(0),
            acc_left_Q_x: p(1),
            acc_left_zero: p(2),
            acc_left_zero_div: p(3),
            acc_right_x: p(4),
            acc_right_Q_x: p(5),
            acc_right_zero_div: p(6),
            acc_flat_A: p(7),
            acc_flat_B: p(8),
            acc_flat_C: p(9),
            acc_flat_B_g2: g2_zero(),
            acc_beta_pow_g2: g2_zero(),
        },
        acc_corr: [p(10), p(11), p(12), p(13)],
        mu: Fe::from_u64(mu),
        prover_only: Some(MatMulAccProofProverOnly {
            acc_part_corr1: p(14),
            acc_flat_A_no_blind: p(15),
            acc_flat_B_no_blind: p(16),
            acc_flat_A_r: Fe::from_u64(base + 17),
            acc_flat_B_r: Fe::from_u64(base + 18),
        }),
        errs: MatMulErrs { acc_left_Q_x: p(19), acc_left_x: p(20), acc_part_corr1: p(21), acc_gt: gt },
        acc_errs: MatMulAccErrs { acc_left_Q_x: p(22), acc_left_x: p(23), acc_part_corr1: p(24), acc_gt: gt },
    }
}

#[test]
fn product_folding_combines_with_the_challenge() {
    let (g1, g2, ge) = (gt_of([2, 0, 0, 0, 0, 0, 0, 0, 0, 0, 0, 0]), gt_of([3, 1, 0, 0, 0, 0, 0, 0, 0, 0, 0, 0]), gt_of([5, 0, 0, 0, 0, 0, 0, 0, 0, 0, 0, 0]));
    let a1 = proof_with(1, 1, g1);
    let a2 = proof_with(100, 7, g2);
    let errs = MatMulErrs { acc_left_Q_x: times(3), acc_left_x: times(4), acc_part_corr1: times(5), acc_gt: ge };
    let gamma = Fe::from_u64(2);
    let r = matmul_accumulate(&a1, &a2, &errs, &gamma);
    // Every point is a1 + a2 * 2.
    let want = |x: u64, y: u64| ark_bn254::G1Affine::from(ark_bn254::G1Projective::from(ark_affine(&times(x))) + ark_g1(&times(y)) * fr(2));
    assert_eq!(ark_affine(&r.fiat_shamir.acc_left_x), want(1, 100));
    assert_eq!(ark_affine(&r.fiat_shamir.acc_flat_C), want(10, 109));
    assert_eq!(ark_affine(&r.acc_corr[3]), want(14, 113));
    let po = r.prover_only.unwrap();
    assert_eq!(ark_affine(&po.acc_flat_B_no_blind), want(17, 116));
    assert_eq!(po.acc_flat_A_r, Fe::from_u64(18 + 117 * 2));
    assert_eq!(r.mu, Fe::from_u64(1 + 2 * 7));
    // The step's error terms are kept; the accumulated ones are a1 + e * 2 + a2 * 4.
    assert_eq!(r.errs.acc_left_x, errs.acc_left_x);
    let s = ark_g1(&times(24)) + ark_g1(&times(4)) * fr(2) + ark_g1(&times(123)) * fr(4);
    assert_eq!(ark_affine(&r.acc_errs.acc_left_x), ark_bn254::G1Affine::from(s));
    let e = ark_gt(&ge);
    let b = ark_gt(&g2);
    // Scaling in the target group is a cyclotomic power.
    let want_gt = ark_gt(&g1) * e.cyclotomic_exp([2u64]) * b.cyclotomic_exp([4u64]);
    assert_ne!(want_gt, ark_gt(&g1));
    assert_eq!(ark_gt(&r.acc_errs.acc_gt), want_gt);
}

fn pt(k: u64) -> G1Affine {
    DataEnc::new(&Data::new(&vec![generator(); 3], &vec![Fe::from_u64(k)], (Fe::zero(), Fe::zero()))).g1
}

fn g2a_inf() -> G2Affine {
    G2Affine { x: (Fq::from_u64(0), Fq::from_u64(0)), y: (Fq::from_u64(0), Fq::from_u64(0)), infinity: true }
}

fn affine_proof(s: &dyn Fn(u64) -> u64, mu: u64) -> MatMulAccProof<G1Affine, G2Affine, Gt> {
    let one = gt_of([1, 0, 0, 0, 0, 0, 0, 0, 0, 0, 0, 0]);
    let p = |k: u64| pt(s(k));
    MatMulAccProof {
        fiat_shamir: MatMulAccFiatShamir {
            acc_left_x: p(0),
            acc_left_Q_x: p(1),
            acc_left_zero: p(2),
            acc_left_zero_div: p(3),
            acc_right_x: p(4),
            acc_right_Q_x: p(5),
            acc_right_zero_div: p(6),
            acc_flat_A: p(7),
            acc_flat_B: p(8),
            acc_flat_C: p(9),
            acc_flat_B_g2: g2a_inf(),
            acc_beta_pow_g2: g2a_inf(),
        },
        acc_corr: [p(10), p(11), p(12), p(13)],
        mu: Fe::from_u64(mu),
        prover_only: None,
        errs: MatMulErrs { acc_left_Q_x: p(14), acc_left_x: p(15), acc_part_corr1: p(16), acc_gt: one },
        acc_errs: MatMulAccErrs { acc_left_Q_x: p(17), acc_left_x: p(18), acc_part_corr1: p(19), acc_gt: one },
    }
}

#[test]
fn product_folding_is_checked() {
    // a1 holds k + 1, a2 holds k + 50, the step's errors k + 7; with the
    // challenge 3 the folded points hold (k + 1) + 3 (k + 50), and the
    // folded error terms (k + 1) + 3 (k + 7) + 9 (k + 50).
    let a1 = affine_proof(&|k| k + 1, 2);
    let a2 = affine_proof(&|k| k + 50, 5);
    let make_new = || {
        let mut new = affine_proof(&|k| (k + 1) + 3 * (k + 50), 17);
        new.errs = MatMulErrs { acc_left_Q_x: pt(7), acc_left_x: pt(8), acc_part_corr1: pt(9), acc_gt: gt_of([1, 0, 0, 0, 0, 0, 0, 0, 0, 0, 0, 0]) };
        new.acc_errs.acc_left_Q_x = pt(1 + 3 * 7 + 9 * 50);
        new.acc_errs.acc_left_x = pt(2 + 3 * 8 + 9 * 51);
        new.acc_errs.acc_part_corr1 = pt(3 + 3 * 9 + 9 * 52);
        new
    };
    // a1.acc_errs hold 18..20 (k + 1 at k = 17..19): fix them to 1, 2, 3.
    let mut a1 = a1;
    a1.acc_errs.acc_left_Q_x = pt(1);
    a1.acc_errs.acc_left_x = pt(2);
    a1.acc_errs.acc_part_corr1 = pt(3);
    let mut a2 = a2;
    a2.acc_errs.acc_left_Q_x = pt(50);
    a2.acc_errs.acc_left_x = pt(51);
    a2.acc_errs.acc_part_corr1 = pt(52);
    let gamma = Fe::from_u64(3);
    assert!(matmul_mira_verify(&a1, &a2, &make_new(), &gamma));
    // A wrong factor, a wrong point, a wrong challenge, a wrong pairing term.
    let mut bad = make_new();
    bad.mu = Fe::from_u64(16);
    assert!(!matmul_mira_verify(&a1, &a2, &bad, &gamma));
    let mut bad = make_new();
    bad.fiat_shamir.acc_flat_B = pt(5);
    assert!(!matmul_mira_verify(&a1, &a2, &bad, &gamma));
    // The corrections are not among the checked elements.
    let mut other = make_new();
    other.acc_corr[2] = pt(5);
    assert!(matmul_mira_verify(&a1, &a2, &other, &gamma));
    assert!(!matmul_mira_verify(&a1, &a2, &make_new(), &Fe::from_u64(4)));
    let mut bad = make_new();
    bad.acc_errs.acc_gt = gt_of([2, 0, 0, 0, 0, 0, 0, 0, 0, 0, 0, 0]);
    assert!(!matmul_mira_verify(&a1, &a2, &bad, &gamma));
}

#[test]
fn product_folding_errors_cross_the_two_proofs() {
    let gt = gt_of([4, 0, 0, 0, 0, 0, 0, 0, 0, 0, 0, 0]);
    let one = gt_of([1, 0, 0, 0, 0, 0, 0, 0, 0, 0, 0, 0]);
    let a1 = proof_with(1, 2, one);
    let a2 = proof_with(100, 5, one);
    let y1p = times(1000);
    let e = matmul_mira_errs(&y1p, &a1, &a2, &gt);
    // left_Q_x: a1 (2) * mu2 (5) + a2 (101) * mu1 (2).
    assert_eq!(ark_affine(&e.acc_left_Q_x), ark_affine(&times(2 * 5 + 101 * 2)));
    assert_eq!(ark_affine(&e.acc_left_x), ark_affine(&times(5 + 100 * 2)));
    // part_corr1: 15 * 5 + 114 * 2 + 16 * B_r2 (118) + 115 * B_r1 (19)
    //   + 17 * A_r2 (117) + 116 * A_r1 (18) + 1000 * (117 * 19 + 118 * 18).
    let want = 15 * 5 + 114 * 2 + 16 * 118 + 115 * 19 + 17 * 117 + 116 * 18 + 1000 * (117 * 19 + 118 * 18);
    assert_eq!(ark_affine(&e.acc_part_corr1), ark_affine(&times(want)));
    assert_eq!(ark_gt(&e.acc_gt), ark_gt(&gt));
    let r = matmul_mira_prove(&y1p, &a1, &a2, &gt, &Fe::from_u64(2));
    assert_eq!(ark_affine(&r.errs.acc_left_x), ark_affine(&times(5 + 100 * 2)));
    assert_eq!(r.mu, Fe::from_u64(2 + 2 * 5));
}

#[test]
fn product_folding_transcript_absorbs_both_proofs_and_the_errors() {
    let one = gt_of([1, 0, 0, 0, 0, 0, 0, 0, 0, 0, 0, 0]);
    let a1 = proof_with(1, 2, one);
    let a2 = proof_with(100, 5, one);
    let errs = MatMulErrs { acc_left_Q_x: times(3), acc_left_x: times(4), acc_part_corr1: times(5), acc_gt: gt_of([7, 0, 0, 0, 0, 0, 0, 0, 0, 0, 0, 0]) };
    let r = matmul_fold_absorbed(&a1.fiat_shamir, &a2.fiat_shamir, &errs);
    assert_eq!(r.len(), 6);
    match &r[2] {
        Absorbed::Points1(v) => {
            assert_eq!(v.len(), 10);
            assert_eq!(v[0], a2.fiat_shamir.acc_left_x);
            assert_eq!(v[9], a2.fiat_shamir.acc_flat_C);
        }
        _ => panic!("points expected"),
    }
    match &r[4] {
        Absorbed::Points1(v) => assert_eq!(v, &vec![times(3), times(4), times(5)]),
        _ => panic!("points expected"),
    }
    match &r[5] {
        Absorbed::Targets(v) => assert_eq!(v[0].c[0], Fq::from_u64(7)),
        _ => panic!("target expected"),
    }
}
