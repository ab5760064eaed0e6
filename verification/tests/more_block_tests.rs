use zk_torch::accumulator::{acc_proof_to_cq_acc, acc_proof_to_cqlin_acc, acc_proof_to_mul_acc, acc_proof_to_mul_scalar_acc};
use zk_torch::batched_basic_block::{arr_flatten, arr_to_vec, vec_to_arr};
use zk_torch::basic_block::abs::AbsBasicBlock;
use zk_torch::basic_block::alternating::calc_pow as calc_pow_from_alpha;
use zk_torch::basic_block::bool_check::BooleanCheckBasicBlock;
use zk_torch::basic_block::bridge::BridgeBasicBlock;
use zk_torch::basic_block::constant::ConstBasicBlock;
use zk_torch::basic_block::copy_constraint::{
    check_padding_partition, construct_ssig, encode_position, flat_index, zero_padding_partition, CopyConstraintBasicBlock,
};
use zk_torch::basic_block::cqlin::CQLinBasicBlock;
use zk_torch::basic_block::matmul::{
    matmul_acc_holder_to_acc, matmul_acc_to_acc_holder, MatMulAccErrs, MatMulAccFiatShamir, MatMulAccProof,
    MatMulAccProofProverOnly, MatMulBasicBlock, MatMulErrs,
};
use zk_torch::basic_block::permute::PermuteBasicBlock;
use zk_torch::basic_block::range::{RangeBasicBlock, RangeConstBasicBlock};
use zk_torch::basic_block::reshape::ReshapeBasicBlock;
use zk_torch::basic_block::transpose::{calc_pow, TransposeBasicBlock};
use zk_torch::field::{fr_to_int, Fe};
use zk_torch::graph::{gather_inputs, input_source, InputSource, Node, Precomputable};
use zk_torch::tensor::Tensor;

fn fes(v: &[i64]) -> Vec<Fe> {
    v.iter().map(|x| Fe::from_i64(*x)).collect()
}

fn ints(v: &[Fe]) -> Vec<i128> {
    v.iter().map(|x| fr_to_int(x)).collect()
}

fn tensor(shape: Vec<usize>, v: &[i64]) -> Tensor<Fe> {
    Tensor { shape, data: fes(v) }
}

fn empty() -> Tensor<Fe> {
    Tensor { shape: vec![0], data: vec![] }
}

#[test]
fn copy_constraint_copies_and_pads_with_zero() {
    let permutation: Tensor<Option<Vec<usize>>> =
        Tensor { shape: vec![2, 2], data: vec![Some(vec![1]), None, Some(vec![0]), None] };
    let parts = zero_padding_partition(&permutation);
    assert_eq!(parts.len(), 1);
    assert_eq!(parts[0].0, Fe::zero());
    assert_eq!(parts[0].1, vec![vec![0, 1], vec![1, 1]]);
    assert!(check_padding_partition(&permutation, &parts));
    let block = CopyConstraintBasicBlock { permutation, input_dim: vec![2], padding_partitions: parts };
    let out = block.run(&empty(), &vec![tensor(vec![2], &[10, 20])]);
    assert_eq!(out[0].shape, vec![2, 2]);
    assert_eq!(ints(&out[0].data), vec![20, 0, 10, 0]);
}

#[test]
fn copy_constraint_uses_the_last_partition_that_lists_an_index() {
    let permutation: Tensor<Option<Vec<usize>>> = Tensor { shape: vec![3], data: vec![None, Some(vec![0]), None] };
    let parts = vec![(Fe::from_u64(7), vec![vec![0], vec![2]]), (Fe::from_u64(9), vec![vec![2]])];
    assert!(check_padding_partition(&permutation, &parts));
    let block = CopyConstraintBasicBlock { permutation, input_dim: vec![1], padding_partitions: parts };
    let out = block.run(&empty(), &vec![tensor(vec![1], &[5])]);
    assert_eq!(ints(&out[0].data), vec![7, 5, 9]);
}

#[test]
fn padding_partitions_must_list_padding_positions() {
    let permutation: Tensor<Option<Vec<usize>>> = Tensor { shape: vec![2], data: vec![Some(vec![0]), None] };
    assert!(!check_padding_partition(&permutation, &vec![(Fe::zero(), vec![vec![0]])]));
    assert!(check_padding_partition(&permutation, &vec![(Fe::zero(), vec![vec![1]])]));
    let full: Tensor<Option<Vec<usize>>> = Tensor { shape: vec![1], data: vec![Some(vec![0])] };
    assert!(zero_padding_partition(&full).is_empty());
}

#[test]
fn flat_positions_spread_the_last_axis() {
    assert_eq!(flat_index(&vec![2, 4], &Some(vec![1, 3]), 8), Some((1, 6)));
    assert_eq!(flat_index(&vec![3, 2, 4], &Some(vec![2, 1, 0]), 4), Some((5, 0)));
    assert_eq!(flat_index(&vec![4], &Some(vec![3]), 4), Some((0, 3)));
    assert_eq!(flat_index(&vec![4], &None, 4), None);
}

#[test]
fn permutation_polynomial_follows_the_cycles() {
    // A cycle (0,0) -> (0,1) -> (0,0) over a domain of size 2, whose generator is -1.
    let idxs = vec![((0usize, 0usize), None), ((0, 1), None)];
    let partitions = vec![
        (Some((0usize, 0usize)), vec![vec![(0usize, 0usize), (0, 1)]]),
        (Some((0, 1)), vec![vec![(0, 1), (0, 0)]]),
    ];
    let ssig = construct_ssig(&idxs, 2, 2, &partitions, true);
    assert_eq!(ints(&ssig), vec![-1, 1]);
    // With a last axis of 1 spread over 2, each entry is followed by itself shifted once.
    let idxs = vec![((1usize, 0usize), None)];
    let partitions = vec![(Some((1usize, 0usize)), vec![vec![(1usize, 0usize)]])];
    let ssig = construct_ssig(&idxs, 2, 1, &partitions, true);
    assert_eq!(ints(&ssig), vec![2, -2]);
}

#[test]
fn graph_inputs_are_found_both_ways() {
    assert_eq!(input_source(-1, 0), InputSource::GraphInput(0));
    assert_eq!(input_source(-1, 2), InputSource::GraphInput(2));
    assert_eq!(input_source(-3, 0), InputSource::GraphInput(2));
    assert_eq!(input_source(4, 1), InputSource::NodeOutput(4, 1));
    let p = Precomputable::new();
    assert!(p.setup.is_empty() && p.prove_and_verify.is_empty() && p.encodeOutputs.is_empty());
    let n = Node { basic_block: 2, inputs: vec![(-1, 0), (0, 1)] };
    assert_eq!(n.inputs.len(), 2);
}

#[test]
fn accumulated_product_proof_reads_back() {
    let acc: MatMulAccProof<u32, u64, i8> = MatMulAccProof {
        fiat_shamir: MatMulAccFiatShamir {
            acc_left_x: 1,
            acc_left_Q_x: 2,
            acc_left_zero: 3,
            acc_left_zero_div: 4,
            acc_right_x: 5,
            acc_right_Q_x: 6,
            acc_right_zero_div: 7,
            acc_flat_A: 12,
            acc_flat_B: 13,
            acc_flat_C: 14,
            acc_flat_B_g2: 100,
            acc_beta_pow_g2: 101,
        },
        acc_corr: [8, 9, 10, 11],
        mu: Fe::from_u64(42),
        prover_only: Some(MatMulAccProofProverOnly {
            acc_part_corr1: 15,
            acc_flat_A_no_blind: 16,
            acc_flat_B_no_blind: 17,
            acc_flat_A_r: Fe::from_u64(1),
            acc_flat_B_r: Fe::from_u64(2),
        }),
        errs: MatMulErrs { acc_left_Q_x: 20, acc_left_x: 21, acc_part_corr1: 22, acc_gt: -1 },
        acc_errs: MatMulAccErrs { acc_left_Q_x: 30, acc_left_x: 31, acc_part_corr1: 32, acc_gt: -2 },
    };
    let holder = matmul_acc_to_acc_holder(acc, true);
    assert_eq!(holder.acc_g1, (1..=17).collect::<Vec<u32>>());
    assert_eq!(holder.acc_g2, vec![100, 101]);
    assert_eq!(holder.acc_fr, vec![Fe::from_u64(1), Fe::from_u64(2)]);
    assert_eq!(holder.errs[0].0, vec![20, 21, 22]);
    assert_eq!(holder.errs[0].3, vec![-1]);
    let back = matmul_acc_holder_to_acc(holder, true);
    assert_eq!(back.acc_corr, [8, 9, 10, 11]);
    assert_eq!(back.fiat_shamir.acc_flat_C, 14);
    assert_eq!(back.mu, Fe::from_u64(42));
    assert_eq!(back.prover_only.unwrap().acc_flat_B_no_blind, 17);
    assert_eq!(back.acc_errs.acc_gt, -2);
    let verifier = matmul_acc_to_acc_holder(back, false);
    assert_eq!(verifier.acc_g1.len(), 14);
    assert!(verifier.acc_fr.is_empty());
    assert!(matmul_acc_holder_to_acc(verifier, false).prover_only.is_none());
}

#[test]
fn accumulated_proofs_are_cut_into_their_parts() {
    let empty_holder = acc_proof_to_cq_acc::<u32, u32>((&vec![], &vec![], &vec![]), true);
    assert!(empty_holder.acc_g1.is_empty() && empty_holder.errs.is_empty());
    assert_eq!(empty_holder.mu, Fe::zero());
    // A product with a scalar, for the verifier: 4 accumulated values, 4 + 2 error elements, 3 g2 elements.
    let p: Vec<u32> = (0..10).collect();
    let q: Vec<u32> = vec![100, 101, 102];
    let f = fes(&[5]);
    let h = acc_proof_to_mul_scalar_acc((&p, &q, &f), false);
    assert_eq!(h.acc_g1, vec![0, 1, 2, 3]);
    assert_eq!(h.acc_g2, vec![100]);
    assert_eq!(h.errs[0].0, vec![4, 5, 6, 7]);
    assert_eq!(h.errs[0].1, vec![101, 102]);
    assert_eq!(h.acc_errs[0].0, vec![8, 9]);
    assert_eq!(h.mu, Fe::from_u64(5));
    let p: Vec<u32> = (0..20).collect();
    let h = acc_proof_to_mul_acc((&p, &q, &fes(&[6, 7, 8])), true);
    assert_eq!(h.acc_fr, fes(&[6, 7]));
    assert_eq!(h.mu, Fe::from_u64(8));
}

#[test]
fn small_blocks() {
    assert_eq!(ints(&AbsBasicBlock.run(&vec![], &vec![fes(&[-3, 4, 0])])[0]), vec![3, 4, 0]);
    let t = TransposeBasicBlock.run(&vec![], &vec![fes(&[1, 2, 3]), fes(&[4, 5, 6])]);
    assert_eq!(t.len(), 3);
    assert_eq!(ints(&t[1]), vec![2, 5]);
    let r = ReshapeBasicBlock { shape: vec![2, 3, 2] }.run(&empty(), &vec![tensor(vec![6, 2], &[7; 12])]);
    assert_eq!(r[0].shape, vec![2, 3, 2]);
    assert_eq!(ints(&r[0].data), vec![7; 12]);
    let c = ConstBasicBlock.run(&tensor(vec![2], &[8, 9]), &vec![]);
    assert_eq!(ints(&c[0].data), vec![8, 9]);
    let b = BridgeBasicBlock.run(&empty(), &vec![tensor(vec![2], &[1, 0])]);
    assert_eq!(ints(&b.data), vec![1, 0]);
    assert!(BooleanCheckBasicBlock.run(&empty(), &vec![tensor(vec![3], &[1, 0, 1])]).is_empty());
}

#[test]
fn powers() {
    assert_eq!(ints(&calc_pow(Fe::from_u64(3), 4)), vec![1, 3, 9, 27]);
    assert_eq!(ints(&calc_pow_from_alpha(Fe::from_u64(3), 3)), vec![3, 9, 27]);
}

#[test]
fn progressions() {
    let r = RangeConstBasicBlock { start: 1, limit: 8, delta: 3 }.run(&empty(), &vec![]);
    assert_eq!(ints(&r[0].data), vec![1, 4, 7]);
    let r = RangeConstBasicBlock { start: 5, limit: 2, delta: 1 }.run(&empty(), &vec![]);
    assert!(r[0].data.is_empty());
    let r = RangeBasicBlock { start: 0, delta: 2 }.run(&empty(), &vec![tensor(vec![1], &[5])]);
    assert_eq!(ints(&r[0].data), vec![0, 2, 4]);
}

#[test]
fn matrix_products_and_linear_layers() {
    let out = MatMulBasicBlock { m: 2, n: 2 }
        .run(&empty(), &vec![tensor(vec![2], &[1, 2]), tensor(vec![2, 2], &[1, 1, 2, 3])])
        .unwrap();
    assert_eq!(ints(&out[0].data), vec![3, 8]);
    let layer = CQLinBasicBlock { setup: tensor(vec![2, 2], &[1, 2, 3, 4]) };
    let model = layer.genModel();
    let out = layer.run(&model, &vec![tensor(vec![2], &[1, 1])]).unwrap();
    assert_eq!(ints(&out[0].data), vec![4, 6]);
    let out = layer.run(&model, &vec![tensor(vec![1, 2], &[2, -1])]).unwrap();
    assert_eq!(ints(&out[0].data), vec![-1, 0]);
}

#[test]
fn permute_reads_in_column_major_order() {
    // A transpose of a 2-row matrix: permutation.0[i] = 2 i, permutation.1[j] = j.
    let b = PermuteBasicBlock { permutation: (vec![0, 2], vec![0, 1]) };
    let out = b.run(&empty(), &vec![tensor(vec![2, 2], &[1, 2, 3, 4])]);
    assert_eq!(out[0].shape, vec![2, 2]);
    assert_eq!(ints(&out[0].data), vec![1, 3, 2, 4]);
}

#[test]
fn positions_are_encoded_by_polynomial_and_point() {
    assert_eq!(fr_to_int(&encode_position(2, &Fe::from_i64(-1))), -3);
    assert_eq!(fr_to_int(&encode_position(0, &Fe::from_u64(5))), 5);
}

#[test]
fn transposing_twice_gives_the_matrix_back() {
    let a = vec![fes(&[1, 2, 3]), fes(&[4, 5, 6])];
    let t = TransposeBasicBlock.run(&vec![], &a);
    let b = TransposeBasicBlock.run(&vec![], &t);
    assert_eq!(b, a);
}

#[test]
fn copy_partitions_cycle_each_input_through_its_copies() {
    let permutation: Tensor<Option<Vec<usize>>> = Tensor { shape: vec![3], data: vec![Some(vec![1]), None, Some(vec![1])] };
    let parts = vec![(Fe::from_u64(5), vec![vec![1]])];
    let block = CopyConstraintBasicBlock { permutation, input_dim: vec![2], padding_partitions: parts };
    let (n, partitions) = block.partitions();
    assert_eq!(n, 3);
    assert_eq!(
        partitions,
        vec![
            (Some((0, 0)), vec![vec![(0, 0)]]),
            (Some((0, 1)), vec![vec![(0, 1), (1, 0), (1, 2)]]),
            (None, vec![vec![(1, 1)]]),
        ]
    );
}

#[test]
fn copy_partitions_order_padding_cycles_by_value() {
    let permutation: Tensor<Option<Vec<usize>>> = Tensor { shape: vec![2, 2], data: vec![None, Some(vec![0]), None, None] };
    let parts = vec![
        (Fe::from_u64(9), vec![vec![0, 0]]),
        (Fe::from_u64(4), vec![vec![1, 0], vec![1, 1]]),
        (Fe::from_u64(6), vec![]),
    ];
    let block = CopyConstraintBasicBlock { permutation, input_dim: vec![1], padding_partitions: parts };
    let (n, partitions) = block.partitions();
    assert_eq!(n, 2);
    assert_eq!(
        partitions,
        vec![(Some((0, 0)), vec![vec![(0, 0), (1, 1)]]), (None, vec![vec![(2, 0), (2, 1)], vec![(1, 0)]])]
    );
}

#[test]
fn copy_setup_evaluations_encode_each_successor() {
    // Over a domain of size 2, whose generator is -1.
    let permutation: Tensor<Option<Vec<usize>>> = Tensor { shape: vec![2], data: vec![Some(vec![0]), None] };
    let parts = vec![(Fe::from_u64(7), vec![vec![1]])];
    let block = CopyConstraintBasicBlock { permutation, input_dim: vec![1], padding_partitions: parts };
    let (n, partitions) = block.partitions();
    assert_eq!(n, 2);
    assert_eq!(partitions, vec![(Some((0, 0)), vec![vec![(0, 0), (1, 0)]]), (None, vec![vec![(1, 1)]])]);
    let ssig = block.permutation_evaluations(n, &partitions);
    assert_eq!(ssig.len(), 2);
    assert_eq!(ints(&ssig[0]), vec![2, -1]);
    assert_eq!(ints(&ssig[1]), vec![1, -2]);
    assert_eq!(block.first_padding_point(n), 1);
}

#[test]
fn copy_setup_without_padding_uses_the_first_point() {
    let permutation: Tensor<Option<Vec<usize>>> = Tensor { shape: vec![2], data: vec![Some(vec![1]), Some(vec![0])] };
    let block = CopyConstraintBasicBlock { permutation, input_dim: vec![2], padding_partitions: vec![] };
    let (n, partitions) = block.partitions();
    assert_eq!(n, 2);
    assert_eq!(
        partitions,
        vec![(Some((0, 0)), vec![vec![(0, 0), (1, 1)]]), (Some((0, 1)), vec![vec![(0, 1), (1, 0)]]), (None, vec![])]
    );
    assert_eq!(block.first_padding_point(n), 0);
}

#[test]
fn copies_in_one_cycle_hold_the_input_value() {
    let permutation: Tensor<Option<Vec<usize>>> = Tensor { shape: vec![3], data: vec![Some(vec![1]), None, Some(vec![1])] };
    let parts = vec![(Fe::from_u64(5), vec![vec![1]])];
    let block = CopyConstraintBasicBlock { permutation, input_dim: vec![2], padding_partitions: parts };
    let (_, partitions) = block.partitions();
    let out = block.run(&empty(), &vec![tensor(vec![2], &[10, 20])]);
    assert_eq!(ints(&out[0].data), vec![20, 5, 20]);
    // The cycle of input element 1 runs through output elements 0 and 2 (polynomial 1).
    let cycle = &partitions[1].1[0];
    for p in cycle.iter().skip(1) {
        assert_eq!(p.0, 1);
        assert_eq!(fr_to_int(&out[0].data[p.1]), 20);
    }
    // The padding cycle holds output element 1, whose value is its padding value.
    assert_eq!(partitions[2].1, vec![vec![(1, 1)]]);
    assert_eq!(fr_to_int(&out[0].data[1]), 5);
}

#[test]
fn node_inputs_come_from_graph_inputs_and_earlier_outputs() {
    let inputs = vec![tensor(vec![1], &[1]), tensor(vec![2], &[2, 3])];
    let outputs = vec![vec![tensor(vec![1], &[4]), tensor(vec![1], &[5])]];
    let got = gather_inputs(&inputs, &outputs, &vec![(-1, 1), (0, 1), (-2, 0), (0, 0)]);
    assert_eq!(got.len(), 4);
    assert_eq!(got[0].shape, vec![2]);
    assert_eq!(ints(&got[0].data), vec![2, 3]);
    assert_eq!(ints(&got[1].data), vec![5]);
    assert_eq!(ints(&got[2].data), vec![2, 3]);
    assert_eq!(ints(&got[3].data), vec![4]);
}

#[test]
fn linear_lookup_proof_is_cut_into_its_parts() {
    // A verifier's proof with one sumcheck round and no extra accumulated error.
    let p: Vec<u32> = (0..37).collect();
    let q: Vec<u32> = vec![100, 101, 102];
    let f = fes(&[1, 2, 3, 4]);
    let h = acc_proof_to_cqlin_acc((&p, &q, &f), 1, false);
    assert_eq!(h.acc_g1, (0..17).collect::<Vec<u32>>());
    assert_eq!(h.acc_g2, vec![100]);
    assert_eq!(h.acc_fr, fes(&[1, 2]));
    assert_eq!(h.mu, Fe::from_u64(4));
    assert_eq!(h.errs.len(), 4);
    assert_eq!(h.errs[0].0, vec![17, 18, 19, 20, 21]);
    assert_eq!(h.errs[0].1, vec![101, 102]);
    assert_eq!(h.errs[1].0, vec![22, 23, 24]);
    assert_eq!(h.errs[2].0, vec![25, 26, 27]);
    assert_eq!(h.errs[3].2, fes(&[3]));
    assert_eq!(h.acc_errs.len(), 4);
    assert_eq!(h.acc_errs[0].0, vec![28, 29, 30]);
    assert!(h.acc_errs[0].1.is_empty());
    assert_eq!(h.acc_errs[1].0, vec![31, 32, 33]);
    assert_eq!(h.acc_errs[2].0, vec![34, 35, 36]);
    assert_eq!(h.acc_errs[3].2, fes(&[4]));
    let empty = acc_proof_to_cqlin_acc::<u32, u32>((&vec![], &vec![], &vec![]), 3, true);
    assert!(empty.acc_g1.is_empty() && empty.errs.is_empty() && empty.acc_errs.is_empty());
}

#[test]
fn batches_split_into_lanes_and_back() {
    let a: Vec<Tensor<u32>> = vec![Tensor { shape: vec![2, 2], data: vec![1, 2, 3, 4] }, Tensor { shape: vec![3], data: vec![5, 6, 7] }];
    // Each position along the last axis gives one vector.
    assert_eq!(arr_to_vec(&a), vec![vec![1, 3], vec![2, 4], vec![5, 6, 7]]);
    assert_eq!(arr_flatten(&a), vec![1, 2, 3, 4, 5, 6, 7]);
    let t = vec_to_arr(vec![vec![1u32, 2], vec![3]]);
    assert_eq!(t.len(), 2);
    assert_eq!(t[0].shape, vec![2]);
    assert_eq!(t[0].data, vec![1, 2]);
    assert_eq!(t[1].shape, vec![1]);
    assert_eq!(t[1].data, vec![3]);
}

#[test]
fn empty_permutation_has_no_padding_partition() {
    // A dimension of length zero: no entries, whatever the others are.
    let empty: Tensor<Option<Vec<usize>>> = Tensor { shape: vec![0, usize::MAX, usize::MAX], data: vec![] };
    assert!(zero_padding_partition(&empty).is_empty());
}
