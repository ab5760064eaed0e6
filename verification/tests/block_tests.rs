use zk_torch::basic_block::add::{AddAlongAxisBasicBlock, AddBasicBlock, MultipleAddBasicBlock};
use zk_torch::basic_block::alternate::{AlternateBasicBlock, SplitBasicBlock};
use zk_torch::basic_block::bit_decomposition::BitDecompositionBasicBlock;
use zk_torch::basic_block::clip::ClipBasicBlock;
use zk_torch::basic_block::concat::{swap_elements, swap_for_concat, ConcatBasicBlock, ConcatLastDimBasicBlock};
use zk_torch::basic_block::cq2::cq2_check_range;
use zk_torch::basic_block::div::{DivScalarBasicBlock, ModConstBasicBlock};
use zk_torch::basic_block::matmult::MatMultBasicBlock;
use zk_torch::basic_block::max::{MaxBasicBlock, MaxV1BasicBlock};
use zk_torch::basic_block::mul::{MulBasicBlock, MulConstBasicBlock, MulScalarBasicBlock};
use zk_torch::basic_block::relu::ReLUBasicBlock;
use zk_torch::basic_block::repeater::combineArr;
use zk_torch::basic_block::squeeze::{SqueezeBasicBlock, UnsqueezeBasicBlock};
use zk_torch::basic_block::sub::SubBasicBlock;
use zk_torch::basic_block::sum::SumBasicBlock;
use zk_torch::field::{fr_to_int, Fe};
use zk_torch::tensor::Tensor;

fn fes(v: &[i64]) -> Vec<Fe> {
    v.iter().map(|x| Fe::from_i64(*x)).collect()
}

fn ints(v: &[Fe]) -> Vec<i128> {
    v.iter().map(|x| fr_to_int(x)).collect()
}

fn tensor(shape: Vec<usize>, v: &[i64]) -> Tensor<Fe> {
    Tensor { shape, data: fes(v) }
}

fn empty() -> Tensor<Fe> {
    Tensor { shape: vec![0], data: vec![] }
}

#[test]
fn add_adds_pairwise_and_broadcasts_a_scalar() {
    let b = AddBasicBlock;
    let out = b.run(&empty(), &vec![tensor(vec![3], &[1, 2, 3]), tensor(vec![3], &[10, -20, 30])]).unwrap();
    assert_eq!(ints(&out[0].data), vec![11, -18, 33]);
    let out = b.run(&empty(), &vec![tensor(vec![1], &[5]), tensor(vec![2], &[1, 2])]).unwrap();
    assert_eq!(out[0].shape, vec![2]);
    assert_eq!(ints(&out[0].data), vec![6, 7]);
}

#[test]
fn multiple_add_and_add_along_axis() {
    let out = MultipleAddBasicBlock
        .run(&empty(), &vec![tensor(vec![2], &[1, 2]), tensor(vec![2], &[3, 4]), tensor(vec![2], &[5, 6])])
        .unwrap();
    assert_eq!(ints(&out[0].data), vec![9, 12]);
    let out = AddAlongAxisBasicBlock { axis: 0 }.run(&empty(), &vec![tensor(vec![2, 2], &[1, 2, 3, 4])]).unwrap();
    assert_eq!(ints(&out[0].data), vec![4, 6]);
}

#[test]
fn subtraction_and_addition_undo_each_other() {
    let a = fes(&[5, -3, 100]);
    let b = fes(&[7, 2, -1]);
    let diff = SubBasicBlock.run(&vec![], &vec![a.clone(), b.clone()]);
    assert_eq!(ints(&diff[0]), vec![-2, -5, 101]);
    let back = AddBasicBlock
        .run(&empty(), &vec![Tensor { shape: vec![3], data: diff[0].clone() }, Tensor { shape: vec![3], data: b }])
        .unwrap();
    assert_eq!(back[0].data, a);
}

#[test]
fn products() {
    let out = MulConstBasicBlock { c: 3 }.run(&empty(), &vec![tensor(vec![2], &[4, -5])]).unwrap();
    assert_eq!(ints(&out[0].data), vec![12, -15]);
    let out = MulScalarBasicBlock.run(&empty(), &vec![tensor(vec![2], &[4, -5]), tensor(vec![1], &[-2])]).unwrap();
    assert_eq!(ints(&out[0].data), vec![-8, 10]);
    let out = MulBasicBlock { len: 2 }.run(&empty(), &vec![tensor(vec![2], &[4, -5]), tensor(vec![2], &[6, 7])]).unwrap();
    assert_eq!(ints(&out[0].data), vec![24, -35]);
}

#[test]
fn sum_of_a_vector() {
    let out = SumBasicBlock { len: 4 }.run(&empty(), &vec![tensor(vec![4], &[1, 2, 3, -10])]).unwrap();
    assert_eq!(ints(&out[0].data), vec![-4]);
}

#[test]
fn maximum_ignores_negative_numbers() {
    let out = MaxBasicBlock.run(&empty(), &vec![tensor(vec![4], &[3, -9, 8, 5])]);
    assert_eq!(ints(&out[0].data), vec![8]);
    let out = MaxBasicBlock.run(&empty(), &vec![tensor(vec![2], &[-3, -1])]);
    assert_eq!(ints(&out[0].data), vec![0]);
    let out = MaxV1BasicBlock.run(&empty(), &vec![tensor(vec![3], &[3, 8, 5])]);
    assert_eq!(ints(&out[0].data), vec![8]);
    assert_eq!(ints(&out[1].data), vec![5, 0, 3]);
}

#[test]
fn relu_zeroes_negative_numbers() {
    let out = ReLUBasicBlock.run(&vec![], &vec![fes(&[3, -4, 0, 7])]);
    assert_eq!(ints(&out[0]), vec![3, 0, 0, 7]);
}

#[test]
fn split_undoes_alternate() {
    let a = fes(&[1, 2, 3]);
    let b = fes(&[10, 20, 30]);
    let c = AlternateBasicBlock.run(&vec![], &vec![a.clone(), b.clone()]);
    assert_eq!(ints(&c[0]), vec![1, 10, 2, 20, 3, 30]);
    let parts = SplitBasicBlock.run(&vec![], &c);
    assert_eq!(parts[0], a);
    assert_eq!(parts[1], b);
}

#[test]
fn squeeze_undoes_unsqueeze() {
    let t = tensor(vec![2, 2], &[1, 2, 3, 4]);
    let u = UnsqueezeBasicBlock.run(&empty(), &vec![t]);
    assert_eq!(u[0].shape, vec![1, 2, 2]);
    let s = SqueezeBasicBlock.run(&empty(), &u);
    assert_eq!(s[0].shape, vec![2, 2]);
    assert_eq!(ints(&s[0].data), vec![1, 2, 3, 4]);
}

#[test]
fn scalar_division_rounds_to_nearest() {
    // (2 x sf + y) / (2 y) with sf = 1: 7 / 2 = 3.5 rounds to 4, -7 / 2 = -3.5 rounds to -3.
    let out = DivScalarBasicBlock { output_SF: 1 }.run(&empty(), &vec![tensor(vec![3], &[7, -7, 6]), tensor(vec![1], &[2])]);
    assert_eq!(ints(&out[0].data), vec![4, -3, 3]);
    assert_eq!(ints(&out[1].data), vec![0, 0, 2]);
    // With sf = 4, 5 / 3 * 4 = 6.67 rounds to 7, and -5 / 3 * 4 = -6.67 rounds to -7.
    let out = DivScalarBasicBlock { output_SF: 4 }.run(&empty(), &vec![tensor(vec![2], &[5, -5]), tensor(vec![1], &[3])]);
    assert_eq!(ints(&out[0].data), vec![7, -7]);
}

#[test]
fn constant_modulus() {
    let out = ModConstBasicBlock { c: 5 }.run(&empty(), &vec![tensor(vec![3], &[12, 5, 4])]);
    assert_eq!(ints(&out[0].data), vec![2, 0, 4]);
}

#[test]
fn clip_to_a_range() {
    let b = ClipBasicBlock { min: Fe::from_u64(2), max: Fe::from_u64(5) };
    let out = b.run(&empty(), &vec![tensor(vec![4], &[1, 3, 7, 5])]);
    assert_eq!(ints(&out[0].data), vec![2, 3, 5, 5]);
}

#[test]
fn bits_of_an_element() {
    let out = BitDecompositionBasicBlock.run(&vec![], &vec![fes(&[5, 0]), fes(&[-1])]);
    assert_eq!(out.len(), 3);
    assert_eq!(out[0].len(), 256);
    assert_eq!(ints(&out[0][..4]), vec![1, 0, 1, 0]);
    assert!(out[1].iter().all(|b| *b == Fe::zero()));
    // The lowest limb of the modulus minus one is 0x43e1f593f0000000: 28 zero bits, then ones.
    assert_eq!(ints(&out[2][27..30]), vec![0, 1, 1]);
}

#[test]
fn range_check_reports_the_first_element_out_of_range() {
    let model = tensor(vec![4, 2], &[0, 0, 0, 0, 0, 0, 0, 0]);
    let ok = cq2_check_range(-2, 4, &model, &vec![tensor(vec![3], &[-2, 0, 1]), tensor(vec![3], &[0, 0, 0])]);
    assert!(ok.unwrap().is_empty());
    let err = cq2_check_range(-2, 4, &model, &vec![tensor(vec![3], &[-2, 5, -9]), tensor(vec![3], &[0, 0, 0])]);
    match err {
        Err(e) => assert_eq!(e.input, 5),
        Ok(_) => panic!("expected an error"),
    }
}

#[test]
fn concat_along_the_first_axis() {
    let out = ConcatBasicBlock { axis: 0 }
        .run(&empty(), &vec![tensor(vec![2, 2], &[1, 2, 3, 4]), tensor(vec![1, 2], &[5, 6])])
        .unwrap();
    assert_eq!(out[0].shape, vec![3, 2]);
    assert_eq!(ints(&out[0].data), vec![1, 2, 3, 4, 5, 6]);
}

#[test]
fn concat_along_a_middle_axis() {
    let out = ConcatBasicBlock { axis: 1 }
        .run(&empty(), &vec![tensor(vec![2, 1, 2], &[1, 2, 3, 4]), tensor(vec![2, 2, 2], &[5, 6, 7, 8, 9, 10, 11, 12])])
        .unwrap();
    assert_eq!(out[0].shape, vec![2, 3, 2]);
    assert_eq!(ints(&out[0].data), vec![1, 2, 5, 6, 7, 8, 3, 4, 9, 10, 11, 12]);
}

#[test]
fn concat_last_dim_cuts_joins_and_pads() {
    let b = ConcatLastDimBasicBlock { input_shapes: vec![vec![2, 1], vec![2, 2]] };
    let out = b.run(&empty(), &vec![tensor(vec![2, 2], &[1, 99, 2, 99]), tensor(vec![2, 2], &[3, 4, 5, 6])]).unwrap();
    assert_eq!(out[0].shape, vec![2, 4]);
    assert_eq!(ints(&out[0].data), vec![1, 3, 4, 0, 2, 5, 6, 0]);
}

#[test]
fn swapping_elements_of_a_table() {
    let mut table = vec![vec![1, 2, 3], vec![4, 5, 6]];
    swap_elements(&mut table, 0, 1, 1, 2);
    assert_eq!(table, vec![vec![1, 6, 3], vec![4, 5, 2]]);
    swap_elements(&mut table, 1, 0, 1, 2);
    assert_eq!(table, vec![vec![1, 6, 3], vec![2, 5, 4]]);
    swap_elements(&mut table, 0, 0, 0, 0);
    assert_eq!(table, vec![vec![1, 6, 3], vec![2, 5, 4]]);
}

#[test]
fn padded_matrix_product() {
    let out = MatMultBasicBlock::run(&vec![], &vec![tensor(vec![2, 2], &[1, 2, 3, 4]), tensor(vec![2, 2], &[5, 6, 7, 8])]);
    assert_eq!(out[0].shape, vec![2, 2]);
    assert_eq!(ints(&out[0].data), vec![19, 22, 43, 50]);
    // A 1 x 3 times 3 x 1 product is padded to 1 x 4 times 4 x 1.
    let out = MatMultBasicBlock::run(&vec![], &vec![tensor(vec![1, 3], &[1, 2, 3]), tensor(vec![3, 1], &[4, 5, -6])]);
    assert_eq!(out[0].shape, vec![1, 1]);
    assert_eq!(ints(&out[0].data), vec![-4]);
}

#[test]
fn concat_permutation_entries_are_exchanged() {
    // Inputs of last dimensions 2 and 1 (domains of 2 and 1) joined into a domain of 4.
    let table: Vec<Vec<Fe>> = (0..3).map(|r| fes(&[10 * r, 10 * r + 1, 10 * r + 2, 10 * r + 3])).collect();
    let out = swap_for_concat(&table, &vec![vec![1, 2], vec![1, 1]], vec![2, 1], 4);
    assert_eq!(ints(&out[0]), vec![20, 1, 21, 3]);
    assert_eq!(ints(&out[1]), vec![22, 11, 12, 13]);
    assert_eq!(ints(&out[2]), vec![0, 2, 10, 23]);
}

#[test]
fn outputs_of_repeated_runs_are_combined() {
    let run = |a: Vec<i32>, b: i32| vec![Tensor { shape: vec![2], data: a }, Tensor { shape: vec![1], data: vec![b] }];
    let arr = Tensor { shape: vec![2], data: vec![run(vec![1, 2], 9), run(vec![3, 4], 8)] };
    let out = combineArr(&arr);
    assert_eq!(out.len(), 2);
    assert_eq!(out[0].shape, vec![2, 2]);
    assert_eq!(out[0].data, vec![1, 2, 3, 4]);
    assert_eq!(out[1].shape, vec![2, 1]);
    assert_eq!(out[1].data, vec![9, 8]);
}

#[test]
fn concat_of_one_tensor_is_that_tensor() {
    let t = tensor(vec![2, 3], &[1, 2, 3, 4, 5, 6]);
    let out = ConcatBasicBlock { axis: 0 }.run(&empty(), &vec![t]).unwrap();
    assert_eq!(out[0].shape, vec![2, 3]);
    assert_eq!(ints(&out[0].data), vec![1, 2, 3, 4, 5, 6]);
}
