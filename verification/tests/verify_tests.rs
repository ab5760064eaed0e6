use ark_ff::{BigInt, Field, One, PrimeField};
use ark_poly::{EvaluationDomain, GeneralEvaluationDomain};
use zk_torch::basic_block::add::{AddAlongAxisBasicBlock, AddBasicBlock, MultipleAddBasicBlock};
use zk_torch::basic_block::concat::ConcatLastDimBasicBlock;
use zk_torch::basic_block::concat_check::ConcatChallenges;
use zk_torch::basic_block::cq::CQBasicBlock;
use zk_torch::basic_block::cqlin::CQLinBasicBlock;
use zk_torch::basic_block::cqlin_prove::CQLinBlinds;
use zk_torch::basic_block::eq::EqBasicBlock;
use zk_torch::basic_block::matmul::MatMulBasicBlock;
use zk_torch::basic_block::matmul_prove::MatMulBlinds;
use zk_torch::basic_block::permute::PermuteBasicBlock;
use zk_torch::basic_block::new_conv::{Conv2DAddBasicBlock, Conv3DAddBasicBlock, Conv3DTransposeBasicBlock};
use zk_torch::basic_block::sum::SumBasicBlock;
use zk_torch::basic_block::{Data, DataEnc, SRS};
use zk_torch::curve::{msm, Fq, G1Affine, G2Affine, G1, G2};
use zk_torch::field::Fe;
use zk_torch::tensor::Tensor;

fn generator() -> G1 {
    G1 { x: Fq::from_u64(1), y: Fq::from_u64(2), z: Fq::from_u64(1) }
}

fn ark_fq(x: &Fq) -> ark_bn254::Fq {
    ark_bn254::Fq::from_bigint(BigInt(x.limbs())).unwrap()
}

fn ark_point(p: &G1Affine) -> ark_bn254::G1Affine {
    if p.infinity {
        ark_bn254::G1Affine::identity()
    } else {
        ark_bn254::G1Affine::new_unchecked(ark_fq(&p.x), ark_fq(&p.y))
    }
}

fn ark_generator() -> ark_bn254::G1Projective {
    ark_bn254::G1Projective::new_unchecked(ark_bn254::Fq::from(1u64), ark_bn254::Fq::from(2u64), ark_bn254::Fq::from(1u64))
}

fn bases() -> Vec<G1> {
    let g = generator();
    (0..6).map(|i| msm(&vec![g], &vec![Fe::from_u64(i + 3)])).collect()
}

fn commit(raw: &[i64], blind: (u64, u64)) -> DataEnc {
    let raw: Vec<Fe> = raw.iter().map(|x| Fe::from_i64(*x)).collect();
    DataEnc::new(&Data::new(&bases(), &raw, (Fe::from_u64(blind.0), Fe::from_u64(blind.1))))
}

fn one(d: DataEnc) -> Tensor<DataEnc> {
    Tensor { shape: vec![1], data: vec![d] }
}

fn g2_inf() -> G2Affine {
    G2Affine { x: (Fq::from_u64(0), Fq::from_u64(0)), y: (Fq::from_u64(1), Fq::from_u64(0)), infinity: true }
}

fn g2_other() -> G2Affine {
    G2Affine { x: (Fq::from_u64(5), Fq::from_u64(6)), y: (Fq::from_u64(7), Fq::from_u64(8)), infinity: false }
}

fn srs() -> SRS {
    SRS { X1A: vec![], X2A: vec![g2_inf(), g2_other()], X1P: vec![], X2P: vec![], Y1P: generator(), Y2A: g2_other(), Y2P: G2 { x: (Fq::from_u64(1), Fq::from_u64(0)), y: (Fq::from_u64(1), Fq::from_u64(0)), z: (Fq::from_u64(0), Fq::from_u64(0)) } }
}

#[test]
fn addition_commitments_add_up() {
    let a = commit(&[1, 2, 3], (4, 5));
    let b = commit(&[10, -2, 7], (1, 9));
    let c = commit(&[11, 0, 10], (5, 14));
    let wrong = commit(&[11, 0, 11], (5, 14));
    let block = AddBasicBlock;
    assert!(block.verify(&vec![one(a), one(b)], &vec![one(c)]));
    assert!(!block.verify(&vec![one(a), one(b)], &vec![one(wrong)]));
}

#[test]
fn several_commitments_add_up() {
    let a = commit(&[1, 2], (1, 1));
    let b = commit(&[3, 4], (2, 0));
    let c = commit(&[5, 6], (0, 3));
    let s = commit(&[9, 12], (3, 4));
    let block = MultipleAddBasicBlock;
    assert!(block.verify(&vec![one(a), one(b), one(c)], &vec![one(s)]));
    assert!(!block.verify(&vec![one(a), one(b)], &vec![one(s)]));
    // No inputs sum to the identity, the commitment of the zero vector.
    let zero = commit(&[0, 0], (0, 0));
    assert!(zero.g1.infinity);
    assert!(block.verify(&vec![], &vec![one(zero)]));
}

#[test]
fn slices_along_an_axis_add_up() {
    // Shape [3, 2]: the slices along axis 0 begin at positions 0, 2 and 4.
    let p = [commit(&[1], (0, 0)), commit(&[7], (0, 0)), commit(&[2], (0, 0)), commit(&[7], (0, 0)), commit(&[4], (0, 0)), commit(&[7], (0, 0))];
    let t = Tensor { shape: vec![3, 2], data: p.to_vec() };
    let block = AddAlongAxisBasicBlock { axis: 0 };
    assert!(block.verify(&vec![t], &vec![one(commit(&[7], (0, 0)))]));
    let t = Tensor { shape: vec![3, 2], data: p.to_vec() };
    assert!(!block.verify(&vec![t], &vec![one(commit(&[8], (0, 0)))]));
}

#[test]
fn equality_check_negates_the_second_commitment() {
    let a = commit(&[1, 2], (1, 2));
    let b = commit(&[1, 2], (3, 4));
    let proof = vec![commit(&[5], (0, 0)).g1];
    let r = EqBasicBlock.verify(&srs(), &vec![one(a), one(b)], &proof);
    assert_eq!(r.len(), 1);
    assert_eq!(r[0].len(), 3);
    assert_eq!(r[0][0].0, a.g1);
    assert_eq!(ark_point(&r[0][1].0), -ark_point(&b.g1));
    assert_eq!(ark_point(&r[0][2].0), -ark_point(&proof[0]));
    assert_ne!(r[0][1].0, b.g1);
    assert!(r[0][2].1.x == g2_other().x);
}

#[test]
fn sum_check_removes_the_constant_term() {
    let input = commit(&[1, 2, 3, 4], (2, 3));
    let output = commit(&[10], (0, 0));
    let proof = vec![commit(&[3], (0, 0)).g1, commit(&[9], (0, 0)).g1];
    let r = SumBasicBlock { len: 4 }.verify(&srs(), &vec![one(input)], &vec![one(output)], &proof);
    assert_eq!(r.len(), 1);
    assert_eq!(r[0].len(), 3);
    let inv = ark_bn254::Fr::from(4u64).inverse().unwrap();
    let want = ark_bn254::G1Affine::from(ark_bn254::G1Projective::from(ark_point(&input.g1)) - ark_point(&output.g1) * inv);
    assert_eq!(ark_point(&r[0][0].0), want);
    assert_eq!(ark_point(&r[0][1].0), -ark_point(&proof[0]));
    assert_eq!(ark_point(&r[0][2].0), -ark_point(&proof[1]));
    assert!(r[0][1].1.x == g2_other().x);
    let _ = ark_generator();
}

#[test]
fn convolution_commitments_add_over_the_kernel() {
    // A 2 x 2 input, a 2 x 2 kernel, stride 1, no padding: one output
    // position, the sum of input k at position k for k = x * 2 + y.
    let block = Conv2DAddBasicBlock { input_shape: vec![2, 2], kernel_shape: vec![2, 2], stride: vec![1, 1], padding: vec![0, 0, 0, 0], out_channels: 1 };
    let inputs: Vec<Tensor<DataEnc>> = (0..4)
        .map(|k| Tensor { shape: vec![1, 4], data: (0..4).map(|p| commit(&[if p == k { k as i64 + 1 } else { 100 }], (0, 0))).collect() })
        .collect();
    let good = Tensor { shape: vec![1, 1], data: vec![commit(&[10], (0, 0))] };
    assert!(block.verify(&inputs, &vec![good]));
    let bad = Tensor { shape: vec![1, 1], data: vec![commit(&[11], (0, 0))] };
    assert!(!block.verify(&inputs, &vec![bad]));
}

fn ark_fr(x: &Fe) -> ark_bn254::Fr {
    ark_bn254::Fr::from_bigint(BigInt(x.limbs())).unwrap()
}

#[test]
fn concatenation_check_batches_the_openings() {
    type P = ark_bn254::G1Projective;
    type F = ark_bn254::Fr;
    // One input of shape [2]: one polynomial for it and one for the output,
    // so m = 2; a domain of size 4; one quotient chunk.
    let block = ConcatLastDimBasicBlock { input_shapes: vec![vec![2]] };
    let p0: Vec<G1Affine> = (0..11).map(|i| commit(&[i as i64 + 2], (0, 0)).g1).collect();
    let p2: Vec<Fe> = (0..6).map(|i| Fe::from_u64(3 * i + 1)).collect();
    let input = commit(&[5], (0, 0));
    let mut output = commit(&[6], (0, 0));
    output.len = 4;
    let ch = ConcatChallenges {
        w: Fe::from_u64(2),
        beta: Fe::from_u64(3),
        gamma: Fe::from_u64(5),
        alpha: Fe::from_u64(7),
        zeta: Fe::from_u64(11),
        v: Fe::from_u64(13),
        u: Fe::from_u64(17),
    };
    let mut srs = srs();
    srs.X1A = vec![commit(&[1], (0, 0)).g1];
    srs.X2A = vec![g2_inf(), g2_other(), g2_inf(), g2_inf(), g2_inf()];
    let r = block.verify(&srs, &vec![one(input)], &vec![one(output)], (&p0, &vec![], &p2), &ch);
    assert_eq!(r.len(), 1);
    assert_eq!(r[0].len(), 4);

    let a: Vec<ark_bn254::G1Affine> = p0.iter().map(ark_point).collect();
    let e: Vec<F> = p2.iter().map(ark_fr).collect();
    let (w, beta, gamma, alpha, zeta, v, u) = (F::from(2u64), F::from(3u64), F::from(5u64), F::from(7u64), F::from(11u64), F::from(13u64), F::from(17u64));
    let (sz, fz) = (&e[2..4], &e[4..6]);
    let ft: F = (0..2).map(|i| beta * F::from((i + 1) as u64) * zeta + fz[i] + gamma).product();
    let gt: F = (0..2).map(|i| sz[i] * beta + fz[i] + gamma).product();
    let d = a[1] * (ft + alpha * e[1] + u) - a[2] * (zeta.pow([4u64]) - F::one());
    let q1x: P = (0..4).map(|i| a[7 + i] * v.pow([i as u64 + 1])).sum();
    let f = d + q1x;
    let q1z: F = (0..4).map(|i| e[2 + i] * v.pow([i as u64 + 1])).sum();
    let r0 = -e[1] * alpha - gt * e[0];
    let big_e = ark_point(&srs.X1A[0]) * (-r0 + q1z + u * e[0]);
    let fj_sum: P = (0..2).map(|i| a[9 + i] * w.pow([i as u64 + 1])).sum();
    let io_sum = ark_point(&input.g1) * w + ark_point(&output.g1) * w.pow([2u64]);
    let omega = GeneralEvaluationDomain::<F>::new(4).unwrap().group_gen();
    let first = ark_bn254::G1Affine::from(a[3] + a[4] * u);
    let second = ark_bn254::G1Affine::from(-(a[3] * zeta + a[4] * u * omega * zeta + f - big_e) + (io_sum - fj_sum));
    let fourth = ark_bn254::G1Affine::from(-a[5] + a[6]);
    assert_eq!(ark_point(&r[0][0].0), first);
    assert_eq!(ark_point(&r[0][1].0), second);
    assert_eq!(ark_point(&r[0][2].0), -a[0]);
    assert_eq!(ark_point(&r[0][3].0), fourth);
    assert!(r[0][0].1.x == g2_other().x);
    assert_ne!(ark_point(&r[0][1].0), ark_bn254::G1Affine::identity());
}

#[test]
fn linear_lookup_check_opens_at_the_challenge() {
    type F = ark_bn254::Fr;
    let block = CQLinBasicBlock { setup: Tensor { shape: vec![0], data: vec![] } };
    // Two model columns of length 4: m = 2, n = 4, log n = 2, N = 8.
    let mut col = commit(&[1], (0, 0));
    col.len = 4;
    let model = Tensor { shape: vec![2], data: vec![col, col] };
    let input = pair_tensor(3, 4);
    let output = pair_tensor(5, 6);
    let p0: Vec<G1Affine> = (0..15).map(|i| commit(&[i as i64 + 7], (0, 0)).g1).collect();
    let g2p = G2 { x: (Fq::from_u64(1), Fq::from_u64(0)), y: (Fq::from_u64(1), Fq::from_u64(0)), z: (Fq::from_u64(0), Fq::from_u64(0)) };
    let mut srs = srs();
    srs.X2P = vec![g2p; 9];
    srs.X2A = vec![g2_inf(); 9];
    srs.X2A[1] = g2_other();
    let g = Fe::from_u64(3);
    let gammas = vec![Fe::from_u64(3), Fe::from_u64(9), Fe::from_u64(81)];
    let alpha = Fe::from_u64(2);
    let r = block.verify(&srs, &model, &vec![pair_tensor(3, 4)], &vec![pair_tensor(5, 6)], (&p0, &vec![g2_other()], &gammas), &alpha, &g);
    let r = r.unwrap();
    assert_eq!(r.iter().map(|c| c.len()).collect::<Vec<_>>(), vec![4, 3, 3, 3, 3, 3]);
    assert_eq!(r[0][0].0, p0[2]);
    assert!(r[0][0].1.x == g2_other().x);
    assert_eq!(ark_point(&r[0][1].0), -ark_point(&p0[1]));
    assert_eq!(r[3][0].0, p0[0]);
    let a: Vec<ark_bn254::G1Affine> = p0.iter().map(ark_point).collect();
    let (al, gn) = (F::from(2u64), F::from(81u64));
    let flat_a = ark_point(&input.data[0].g1) * al + ark_point(&input.data[1].g1) * (al * al);
    let flat_c = ark_bn254::G1Affine::from(ark_point(&output.data[0].g1) * al + ark_point(&output.data[1].g1) * (al * al));
    assert_eq!(ark_point(&r[2][0].0), flat_c);
    assert_eq!(ark_point(&r[4][0].0), ark_bn254::G1Affine::from(flat_a - a[8] + a[6] * gn));
    assert!(r[4][1].1.x == g2_other().x);
    let temp = ark_bn254::G1Affine::from(flat_c * F::from(2u64).inverse().unwrap());
    assert_eq!(ark_point(&r[1][0].0), ark_bn254::G1Affine::from(a[0] - temp));
    // A challenge that is not the first value, or values that are not
    // successive squares, give none.
    assert!(block.verify(&srs, &model, &vec![pair_tensor(3, 4)], &vec![pair_tensor(5, 6)], (&p0, &vec![g2_other()], &gammas), &alpha, &Fe::from_u64(4)).is_none());
    let bad = vec![Fe::from_u64(3), Fe::from_u64(9), Fe::from_u64(80)];
    assert!(block.verify(&srs, &model, &vec![input], &vec![output], (&p0, &vec![g2_other()], &bad), &alpha, &g).is_none());
}

fn pair_tensor(a: i64, b: i64) -> Tensor<DataEnc> {
    Tensor { shape: vec![2], data: vec![commit(&[a], (0, 0)), commit(&[b], (0, 0))] }
}

fn ark_g2(p: &G2Affine) -> ark_bn254::G2Affine {
    let h = |c: &(Fq, Fq)| ark_bn254::Fq2::new(ark_fq(&c.0), ark_fq(&c.1));
    ark_bn254::G2Affine { x: h(&p.x), y: h(&p.y), infinity: p.infinity }
}

#[test]
fn lookup_check_ties_the_table_and_the_input() {
    type F = ark_bn254::Fr;
    let block = CQBasicBlock { n: 2 };
    let mut table = commit(&[4], (0, 0));
    table.len = 4;
    let mut input = commit(&[9], (0, 0));
    input.len = 2;
    let p0: Vec<G1Affine> = (0..14).map(|i| commit(&[i as i64 + 20], (0, 0)).g1).collect();
    let mut srs = srs();
    srs.X1A = vec![commit(&[1], (0, 0)).g1];
    srs.X2A = vec![g2_inf(), g2_other(), g2_inf(), g2_inf(), g2_inf()];
    let beta = Fe::from_u64(6);
    let r = block.verify(&srs, &Tensor { shape: vec![1], data: vec![table] }, &vec![one(input)], (&p0, &vec![g2_other(), g2_inf()], &vec![]), &beta);
    assert_eq!(r.iter().map(|c| c.len()).collect::<Vec<_>>(), vec![4, 2, 3, 4, 2, 3, 3]);
    let a: Vec<ark_bn254::G1Affine> = p0.iter().map(ark_point).collect();
    assert_eq!(ark_point(&r[0][1].0), ark_bn254::G1Affine::from(a[1] * F::from(6u64) - a[0]));
    assert_eq!(ark_g2(&r[1][1].1), -ark_g2(&g2_other()));
    assert_eq!(r[1][0].0, table.g1);
    // B(0) = A(0) * N / n with N = 4 and n = 2.
    let b0 = ark_bn254::G1Affine::from(a[3] * F::from(2u64));
    assert_eq!(ark_point(&r[5][0].0), ark_bn254::G1Affine::from(a[5] - b0));
    assert_eq!(r[6][0].0, p0[5]);
    assert!(r[6][0].1.infinity);
}

#[test]
fn matrix_product_check_combines_rows_and_columns() {
    type F = ark_bn254::Fr;
    let block = MatMulBasicBlock { m: 1, n: 2 };
    let mut row = commit(&[3], (0, 0));
    row.len = 2;
    let inputs = vec![Tensor { shape: vec![1], data: vec![row] }, pair_tensor(4, 5)];
    let outputs = vec![Tensor { shape: vec![1], data: vec![commit(&[6], (0, 0))] }];
    let p0: Vec<G1Affine> = (0..11).map(|i| commit(&[i as i64 + 30], (0, 0)).g1).collect();
    let mut srs = srs();
    srs.X1A = vec![commit(&[1], (0, 0)).g1];
    srs.X2A = vec![g2_inf(), g2_other(), g2_inf()];
    let (alpha, beta) = (Fe::from_u64(2), Fe::from_u64(3));
    let r = block.verify(&srs, &inputs, &outputs, (&p0, &vec![g2_other()], &vec![]), &alpha, &beta);
    assert_eq!(r.iter().map(|c| c.len()).collect::<Vec<_>>(), vec![4, 2, 3, 4, 3]);
    // Rows and outputs combine with alpha, columns with beta and beta^2.
    assert_eq!(ark_point(&r[0][0].0), ark_bn254::G1Affine::from(ark_point(&row.g1) * F::from(2u64)));
    let fb = ark_point(&inputs[1].data[0].g1) * F::from(3u64) + ark_point(&inputs[1].data[1].g1) * F::from(9u64);
    assert_eq!(ark_point(&r[1][0].0), ark_bn254::G1Affine::from(fb));
    assert_eq!(ark_g2(&r[1][1].1), -ark_g2(&g2_other()));
    // right(0) = left(0) * m / n with m = 2 and n = 2.
    let a: Vec<ark_bn254::G1Affine> = p0.iter().map(ark_point).collect();
    assert_eq!(ark_point(&r[4][0].0), ark_bn254::G1Affine::from(a[4] - a[2]));
    // The combination of the interpolated powers: X2A[0] and X2A[2] are the
    // identity, so only X2A[1] times the second coefficient counts; that
    // coefficient is (beta - beta^2) / 2 on the domain {1, -1}.
    let c1 = (F::from(3u64) - F::from(9u64)) * F::from(2u64).inverse().unwrap();
    let want = ark_bn254::G2Affine::from(ark_bn254::G2Projective::from(ark_g2(&g2_other())) * c1);
    assert_eq!(ark_g2(&r[3][0].1), want);
}

#[test]
fn permutation_check_weights_in_both_orders() {
    type F = ark_bn254::Fr;
    let block = PermuteBasicBlock { permutation: (vec![3, 0], vec![1, 0]) };
    let mut a = commit(&[2], (0, 0));
    a.len = 2;
    let mut b = commit(&[3], (0, 0));
    b.len = 2;
    let inputs = vec![Tensor { shape: vec![2], data: vec![a, b] }];
    let outputs = vec![pair_tensor(7, 8)];
    let p0: Vec<G1Affine> = (0..11).map(|i| commit(&[i as i64 + 40], (0, 0)).g1).collect();
    let mut srs = srs();
    srs.X2A = vec![g2_inf(), g2_other(), g2_inf()];
    let alpha = Fe::from_u64(5);
    let r = block.verify(&srs, &inputs, &outputs, (&p0, &vec![], &vec![]), &alpha);
    assert_eq!(r.iter().map(|c| c.len()).collect::<Vec<_>>(), vec![4, 3, 4, 3]);
    let al = F::from(5u64);
    let fl = ark_point(&a.g1) * al + ark_point(&b.g1) * (al * al);
    assert_eq!(ark_point(&r[0][0].0), ark_bn254::G1Affine::from(fl));
    // The output is weighted by alpha^(3 + 1) and alpha^(0 + 1).
    let fr = ark_point(&outputs[0].data[0].g1) * al.pow([4u64]) + ark_point(&outputs[0].data[1].g1) * al;
    assert_eq!(ark_point(&r[2][0].0), ark_bn254::G1Affine::from(fr));
    let q: Vec<ark_bn254::G1Affine> = p0.iter().map(ark_point).collect();
    // right(0) = left(0) * m / m2 with m = m2 = 2.
    assert_eq!(ark_point(&r[3][0].0), ark_bn254::G1Affine::from(q[4] - q[2]));
    assert_eq!(ark_point(&r[1][1].0), -q[3]);
}

#[test]
fn three_dimensional_convolution_commitments_add_over_the_kernel() {
    // A 2 x 1 x 1 input and a 2 x 1 x 1 kernel: one output position, the sum
    // of input 0 at row 0 and input 1 at row 1.
    let block = Conv3DAddBasicBlock {
        input_shape: vec![2, 1, 1],
        kernel_shape: vec![2, 1, 1],
        stride: vec![1, 1, 1],
        padding: vec![0, 0, 0, 0, 0, 0],
        out_channels: 1,
    };
    let inputs = vec![
        Tensor { shape: vec![1, 2], data: vec![commit(&[4], (0, 0)), commit(&[50], (0, 0))] },
        Tensor { shape: vec![1, 2], data: vec![commit(&[60], (0, 0)), commit(&[5], (0, 0))] },
    ];
    assert!(block.verify(&inputs, &vec![Tensor { shape: vec![1, 1], data: vec![commit(&[9], (0, 0))] }]));
    assert!(!block.verify(&inputs, &vec![Tensor { shape: vec![1, 1], data: vec![commit(&[54], (0, 0))] }]));
}

#[test]
fn transposed_convolution_commitments_are_copies() {
    // One input position, a 2 x 1 x 1 kernel equal to the stride: output
    // depth 2, position i copying input i.
    let block = Conv3DTransposeBasicBlock {
        input_shape: vec![1, 1, 1],
        kernel_shape: vec![2, 1, 1],
        stride: vec![2, 1, 1],
        padding: vec![0, 0, 0, 0, 0, 0],
        out_channels: 1,
    };
    let (a, b) = (commit(&[4], (0, 0)), commit(&[5], (0, 0)));
    let inputs = vec![Tensor { shape: vec![1, 1], data: vec![a] }, Tensor { shape: vec![1, 1], data: vec![b] }];
    assert!(block.verify(&inputs, &vec![Tensor { shape: vec![1, 2], data: vec![a, b] }]));
    assert!(!block.verify(&inputs, &vec![Tensor { shape: vec![1, 2], data: vec![b, a] }]));
}

#[test]
fn domain_elements_are_powers_of_five() {
    use_domain_claim(4, 1);
    use_domain_claim(8, 3);
    use_domain_claim(3, 2);
}

fn use_domain_claim(n: usize, i: u64) {
    type F = ark_bn254::Fr;
    // w = 5^((r - 1) / 2^k) for the domain of size 2^k >= n, and the i-th
    // element is w^i.
    let size = n.next_power_of_two();
    let mut e = <F as PrimeField>::MODULUS;
    ark_ff::BigInteger::sub_with_borrow(&mut e, &BigInt::from(1u64));
    ark_ff::BigInteger::divn(&mut e, size.trailing_zeros());
    let w = F::from(5u64).pow(e.0);
    let d = GeneralEvaluationDomain::<F>::new(n).unwrap();
    assert_eq!(d.element(i as usize), w.pow([i]));
    assert_eq!(w.pow([size as u64]), F::one());
}

#[test]
fn lookup_decider_checks_the_constant_term() {
    type F = ark_bn254::Fr;
    let block = CQBasicBlock { n: 2 };
    let p0: Vec<G1Affine> = (0..38).map(|i| commit(&[i as i64 + 60], (0, 0)).g1).collect();
    let g2p = G2 { x: (Fq::from_u64(1), Fq::from_u64(0)), y: (Fq::from_u64(1), Fq::from_u64(0)), z: (Fq::from_u64(0), Fq::from_u64(0)) };
    let mut srs = srs();
    srs.X1A = vec![commit(&[1], (0, 0)).g1];
    srs.X1P = vec![generator()];
    srs.X2P = vec![g2p; 5];
    srs.X2A = vec![g2_inf(), g2_other(), g2_inf(), g2_inf(), g2_inf()];
    let f = vec![Fe::from_u64(1), Fe::from_u64(2), Fe::from_u64(3)];
    let r = block.acc_decide(&srs, (&p0, &vec![g2_inf(); 10], &f));
    assert_eq!(r.len(), 1);
    assert_eq!(r[0].len(), 3);
    // B(0) = A(0) * N / n with N = 4 and n = 2.
    let a: Vec<ark_bn254::G1Affine> = p0.iter().map(ark_point).collect();
    let b0 = ark_bn254::G1Affine::from(a[3] * F::from(2u64));
    assert_eq!(ark_point(&r[0][0].0), ark_bn254::G1Affine::from(a[5] - b0));
    assert_eq!(ark_point(&r[0][1].0), -a[7]);
    assert_eq!(ark_point(&r[0][2].0), -a[13]);
    assert!(r[0][1].1.x == g2_other().x);
}

#[test]
fn linear_lookup_decider_checks_rounds_and_openings() {
    type F = ark_bn254::Fr;
    // Setup of shape [2, 4]: m = 2, n = 4, log n = 2; N = 8.
    let block = CQLinBasicBlock { setup: Tensor { shape: vec![2, 4], data: vec![Fe::zero(); 8] } };
    let p0: Vec<G1Affine> = (0..39).map(|i| commit(&[i as i64 + 70], (0, 0)).g1).collect();
    let q = vec![g2_other(), g2_inf(), g2_inf(), g2_other(), g2_inf()];
    let g2p = G2 { x: (Fq::from_u64(1), Fq::from_u64(0)), y: (Fq::from_u64(1), Fq::from_u64(0)), z: (Fq::from_u64(0), Fq::from_u64(0)) };
    let mut srs = srs();
    srs.X2P = vec![g2p; 9];
    srs.X2A = vec![g2_inf(); 9];
    srs.X2A[1] = g2_other();
    // betas 2, 3, 5; rounds 2^2 - 3 * 1 = 1 and 3^2 - 5 * 1 = 4; mu = 1.
    let f: Vec<Fe> = [2u64, 3, 5, 0, 0, 1, 4, 1].iter().map(|x| Fe::from_u64(*x)).collect();
    let r = block.acc_decide(&srs, (&p0, &q, &f)).unwrap();
    assert_eq!(r.iter().map(|c| c.len()).collect::<Vec<_>>(), vec![9, 3, 3, 3, 6, 6]);
    let a: Vec<ark_bn254::G1Affine> = p0.iter().map(ark_point).collect();
    assert_eq!(r[0][0].0, p0[2]);
    assert!(r[0][0].1.x == g2_other().x);
    // The accumulated error term's points follow the 17 accumulated and 11
    // current ones: its first is negated with its second-group point.
    assert_eq!(ark_point(&r[0][4].0), -a[28]);
    assert!(r[0][4].1.x == g2_other().x);
    let g_m = ark_bn254::G1Affine::from(a[16] * F::from(2u64).inverse().unwrap());
    assert_eq!(ark_point(&r[1][0].0), ark_bn254::G1Affine::from(a[0] - g_m));
    let open = ark_bn254::G1Affine::from((a[15] - a[8]) * F::from(1u64) + a[6] * F::from(5u64));
    assert_eq!(ark_point(&r[4][0].0), open);
    assert_eq!(ark_point(&r[4][3].0), -a[33]);
    // A round that does not hold gives none.
    let mut bad = f.clone();
    bad[5] = Fe::from_u64(2);
    assert!(block.acc_decide(&srs, (&p0, &q, &bad)).is_none());
}

fn ark_proj(g: &G1) -> ark_bn254::G1Projective {
    ark_bn254::G1Projective::new_unchecked(ark_fq(&g.x), ark_fq(&g.y), ark_fq(&g.z))
}

fn raw_data(v: &[i64]) -> Data {
    let raw: Vec<Fe> = v.iter().map(|x| Fe::from_i64(*x)).collect();
    Data::new(&bases(), &raw, (Fe::zero(), Fe::zero()))
}

#[test]
fn linear_lookup_prover_commits_the_flattened_vectors() {
    type F = ark_bn254::Fr;
    let block = CQLinBasicBlock { setup: Tensor { shape: vec![2, 2], data: vec![Fe::zero(); 4] } };
    let model = vec![raw_data(&[1, 2]), raw_data(&[3, 4])];
    let inputs = vec![raw_data(&[5, 6])];
    let outputs = vec![raw_data(&[7, 8])];
    let g2p = G2 { x: (Fq::from_u64(1), Fq::from_u64(0)), y: (Fq::from_u64(1), Fq::from_u64(0)), z: (Fq::from_u64(0), Fq::from_u64(0)) };
    let mut srs = srs();
    srs.X1A = (0..6).map(|i| commit(&[i as i64 + 2], (0, 0)).g1).collect();
    srs.X1P = (0..6).map(|i| msm(&vec![generator()], &vec![Fe::from_u64(i + 11)])).collect();
    srs.X2P = vec![g2p; 5];
    let setup: Vec<G1Affine> = (0..12).map(|i| commit(&[i as i64 + 90], (0, 0)).g1).collect();
    let blinds = CQLinBlinds {
        r: (1..=9).map(Fe::from_u64).collect(),
        input_rs: vec![Fe::from_u64(20)],
        output_rs: vec![Fe::from_u64(21)],
        flat_a: (Fe::zero(), Fe::zero()),
        flat_c: (Fe::zero(), Fe::zero()),
    };
    let (alpha, gamma) = (Fe::from_u64(2), Fe::from_u64(3));
    let (p0, p1, p2) = block.prove(&srs, (&setup, &vec![g2_other()]), &model, &inputs, &outputs, &alpha, &gamma, &blinds);
    assert_eq!((p0.len(), p1.len(), p2.len()), (15, 1, 2));
    assert_eq!(p2, vec![Fe::from_u64(3), Fe::from_u64(9)]);
    // R = setup[0] * 10 + setup[1] * 12 (the input weighted by alpha = 2),
    // hidden by Y1 * 1.
    let s: Vec<ark_bn254::G1Affine> = setup.iter().map(ark_point).collect();
    let y = ark_proj(&generator());
    let r_x = ark_bn254::G1Affine::from(s[0] * F::from(10u64) + s[1] * F::from(12u64));
    assert_eq!(ark_bn254::G1Affine::from(ark_proj(&p0[0])), ark_bn254::G1Affine::from(y * F::from(1u64) + r_x));
    // S uses the third block of the setup and the fourth blind.
    let s_x = ark_bn254::G1Affine::from(s[4] * F::from(10u64) + s[5] * F::from(12u64));
    assert_eq!(ark_bn254::G1Affine::from(ark_proj(&p0[3])), ark_bn254::G1Affine::from(y * F::from(4u64) + s_x));
    // The opening value is the flattened input's polynomial at gamma^2 = 9:
    // on the domain {1, -1} it takes 10 and 12, so it is 11 - x.
    let z = F::from(11u64) - F::from(9u64);
    assert_eq!(ark_bn254::G1Affine::from(ark_proj(&p0[8])), ark_bn254::G1Affine::from(ark_proj(&srs.X1P[0]) * z));
}

#[test]
fn matrix_product_prover_commits_left_and_its_quotient() {
    type F = ark_bn254::Fr;
    type Poly = ark_poly::univariate::DensePolynomial<F>;
    let block = MatMulBasicBlock { m: 2, n: 2 };
    let a = vec![raw_data(&[2, 3])];
    let b = vec![raw_data(&[1, 4]), raw_data(&[5, 6])];
    let c = vec![raw_data(&[7, 8])];
    let mut srs = srs();
    srs.X1A = (0..6).map(|i| commit(&[i as i64 + 2], (0, 0)).g1).collect();
    srs.X1P = (0..6).map(|i| msm(&vec![generator()], &vec![Fe::from_u64(i + 11)])).collect();
    srs.X2A = vec![g2_inf(); 4];
    let zero = (Fe::zero(), Fe::zero());
    let blinds = MatMulBlinds {
        r: (1..=7).map(Fe::from_u64).collect(),
        a_rs: vec![Fe::zero()],
        b_rs: vec![Fe::zero(), Fe::zero()],
        c_rs: vec![Fe::zero()],
        flat_a: zero,
        flat_b: zero,
        flat_c: zero,
        beta_pow: zero,
    };
    let (alpha, beta) = (Fe::from_u64(2), Fe::from_u64(3));
    let (p0, p1, p2) = block.prove(&srs, &a, &b, &c, &alpha, &beta, &blinds, false);
    assert_eq!((p0.len(), p1.len(), p2.len()), (11, 1, 0));
    // For folding: six more points, the columns' weights in the second
    // group, and the flattened blinds.
    let fold_blinds = MatMulBlinds {
        r: (1..=7).map(Fe::from_u64).collect(),
        a_rs: vec![Fe::from_u64(5)],
        b_rs: vec![Fe::from_u64(1), Fe::zero()],
        c_rs: vec![Fe::zero()],
        flat_a: zero,
        flat_b: zero,
        flat_c: zero,
        beta_pow: zero,
    };
    let (f0, f1, f2) = block.prove(&srs, &a, &b, &c, &alpha, &beta, &fold_blinds, true);
    assert_eq!((f0.len(), f1.len(), f2.len()), (17, 2, 2));
    // Flattened blinds: rows 2 * 5 = 10, columns 3 * 1 = 3.
    assert_eq!(f2, vec![Fe::from_u64(10), Fe::from_u64(3)]);
    // The unblinded row commitment, and the blinded one with Y1P * 10.
    let fa_x: ark_bn254::G1Projective = {
        let d = GeneralEvaluationDomain::<ark_bn254::Fr>::new(2).unwrap();
        let x: Vec<ark_bn254::G1Affine> = srs.X1A.iter().map(ark_point).collect();
        d.ifft(&[ark_bn254::Fr::from(4u64), ark_bn254::Fr::from(6u64)]).iter().enumerate().map(|(i, c)| x[i] * c).sum()
    };
    assert_eq!(ark_bn254::G1Affine::from(ark_proj(&f0[15])), ark_bn254::G1Affine::from(fa_x));
    let y10 = ark_proj(&generator()) * ark_bn254::Fr::from(10u64);
    assert_eq!(ark_bn254::G1Affine::from(ark_proj(&f0[11])), ark_bn254::G1Affine::from(fa_x + y10));
    // The first eleven points are those of the plain proof but the
    // correction that carries the row and column blinds.
    assert_eq!(f0[0], p0[0]);
    assert_eq!(f0[10], p0[10]);
    // Flattened: rows 2 * [2, 3] = [4, 6]; columns 3 * [1, 4] + 9 * [5, 6] =
    // [48, 66]; left = [192, 396] on the domain {1, -1}.
    let d = GeneralEvaluationDomain::<F>::new(2).unwrap();
    let fa = Poly { coeffs: d.ifft(&[F::from(4u64), F::from(6u64)]) };
    let fb = Poly { coeffs: d.ifft(&[F::from(48u64), F::from(66u64)]) };
    let left = Poly { coeffs: d.ifft(&[F::from(192u64), F::from(396u64)]) };
    let x: Vec<ark_bn254::G1Affine> = srs.X1A.iter().map(ark_point).collect();
    let y = ark_proj(&generator());
    let left_x = x[0] * left.coeffs[0] + x[1] * left.coeffs[1];
    assert_eq!(ark_bn254::G1Affine::from(ark_proj(&p0[0])), ark_bn254::G1Affine::from(left_x + y * F::from(1u64)));
    let q = (&(&fa * &fb) - &left).divide_by_vanishing_poly(d).unwrap().0;
    let q_x: ark_bn254::G1Projective = q.coeffs.iter().enumerate().map(|(i, c)| x[i] * c).sum();
    assert_eq!(ark_bn254::G1Affine::from(ark_proj(&p0[1])), ark_bn254::G1Affine::from(q_x + y * F::from(2u64)));
    // left(0) = X1A[0] * (192 + 396) / 2.
    let lz = x[0] * (F::from(588u64) * F::from(2u64).inverse().unwrap());
    assert_eq!(ark_bn254::G1Affine::from(ark_proj(&p0[2])), ark_bn254::G1Affine::from(lz + y * F::from(3u64)));
    // left / X = X1A[0] * left[1].
    assert_eq!(ark_bn254::G1Affine::from(ark_proj(&p0[3])), ark_bn254::G1Affine::from(x[0] * left.coeffs[1] + y * F::from(4u64)));
}
