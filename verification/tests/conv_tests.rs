use zk_torch::basic_block::new_conv::{
    Conv2DAddBasicBlock, Conv3DAddBasicBlock, Conv3DTransposeBasicBlock, ConvShapeHelper, MultiHeadConv2dAggBasicBlock,
};
use zk_torch::field::{fr_to_int, Fe};
use zk_torch::tensor::Tensor;

fn tensor(shape: Vec<usize>, v: &[i64]) -> Tensor<Fe> {
    Tensor { shape, data: v.iter().map(|x| Fe::from_i64(*x)).collect() }
}

fn ints(v: &[Fe]) -> Vec<i128> {
    v.iter().map(|x| fr_to_int(x)).collect()
}

fn empty() -> Tensor<Fe> {
    Tensor { shape: vec![0], data: vec![] }
}

#[test]
fn shape_helper_reads_the_sizes() {
    let conv = Conv2DAddBasicBlock {
        input_shape: vec![5, 6],
        kernel_shape: vec![3, 2],
        stride: vec![1, 2],
        padding: vec![1, 0, 1, 0],
        out_channels: 4,
    };
    let s: ConvShapeHelper = ConvShapeHelper::from_conv2d_add(&conv);
    assert_eq!((s.d, s.h, s.w), (None, 5, 6));
    assert_eq!((s.k_h, s.k_w, s.s_h, s.s_w), (3, 2, 1, 2));
    assert_eq!((s.p_h_top, s.p_w_left, s.p_h_bottom, s.p_w_right), (1, 0, 1, 0));
    assert_eq!(s.out_channels, 4);
}

#[test]
fn conv2d_adds_the_kernel_positions() {
    // H = W = 2, a 2 x 1 kernel, stride 1, no padding: H_out = 1, W_out = 2.
    let conv = Conv2DAddBasicBlock {
        input_shape: vec![2, 2],
        kernel_shape: vec![2, 1],
        stride: vec![1, 1],
        padding: vec![0, 0, 0, 0],
        out_channels: 1,
    };
    let inputs = vec![tensor(vec![1, 4, 1], &[1, 2, 3, 4]), tensor(vec![1, 4, 1], &[10, 20, 30, 40])];
    let out = conv.run(&empty(), &inputs).unwrap();
    assert_eq!(out[0].shape, vec![1, 2, 1]);
    // out(0, j) = input 0 at (0, j) + input 1 at (1, j).
    assert_eq!(ints(&out[0].data), vec![31, 42]);
}

#[test]
fn conv2d_skips_padding_and_pads_the_output() {
    // H = 1, W = 3, a 1 x 2 kernel, stride 1, one column of padding on the left:
    // W_out = (3 - 2 + 1) / 1 + 1 = 3, padded to 4.
    let conv = Conv2DAddBasicBlock {
        input_shape: vec![1, 3],
        kernel_shape: vec![1, 2],
        stride: vec![1, 1],
        padding: vec![0, 1, 0, 0],
        out_channels: 2,
    };
    let inputs = vec![tensor(vec![1, 3, 2], &[1, -1, 2, -2, 3, -3]), tensor(vec![1, 3, 2], &[10, -10, 20, -20, 30, -30])];
    let out = conv.run(&empty(), &inputs).unwrap();
    assert_eq!(out[0].shape, vec![1, 4, 2]);
    // out(j) = input 0 at j - 1 (if inside) + input 1 at j.
    assert_eq!(ints(&out[0].data), vec![10, -10, 21, -21, 32, -32, 0, 0]);
}

#[test]
fn conv3d_with_a_single_kernel_position_copies() {
    let conv = Conv3DAddBasicBlock {
        input_shape: vec![2, 1, 1],
        kernel_shape: vec![1, 1, 1],
        stride: vec![1, 1, 1],
        padding: vec![0, 0, 0, 0, 0, 0],
        out_channels: 1,
    };
    let out = conv.run(&empty(), &vec![tensor(vec![1, 2, 1], &[5, 6])]).unwrap();
    assert_eq!(out[0].shape, vec![1, 2, 1]);
    assert_eq!(ints(&out[0].data), vec![5, 6]);
}

#[test]
fn conv3d_adds_over_depth() {
    // D = 3, a kernel of depth 2, stride 1: D_out = 2.
    let conv = Conv3DAddBasicBlock {
        input_shape: vec![3, 1, 1],
        kernel_shape: vec![2, 1, 1],
        stride: vec![1, 1, 1],
        padding: vec![0, 0, 0, 0, 0, 0],
        out_channels: 1,
    };
    let inputs = vec![tensor(vec![1, 3, 1], &[1, 2, 3]), tensor(vec![1, 3, 1], &[100, 200, 300])];
    let out = conv.run(&empty(), &inputs).unwrap();
    assert_eq!(ints(&out[0].data), vec![201, 302]);
}

#[test]
fn conv3d_transpose_spreads_each_input_over_the_kernel() {
    // D = 1 with kernel and stride 2: D_out = 2; output position i copies input i % 2.
    let conv = Conv3DTransposeBasicBlock {
        input_shape: vec![1, 1, 1],
        kernel_shape: vec![2, 1, 1],
        stride: vec![2, 1, 1],
        padding: vec![0, 0, 0, 0, 0, 0],
        out_channels: 1,
    };
    let out = conv.run(&empty(), &vec![tensor(vec![1, 1, 1], &[7]), tensor(vec![1, 1, 1], &[9])]).unwrap();
    assert_eq!(out[0].shape, vec![1, 2, 1]);
    assert_eq!(ints(&out[0].data), vec![7, 9]);
}

#[test]
fn heads_are_joined_along_axis_one() {
    let b = MultiHeadConv2dAggBasicBlock { input_shape: vec![1, 2, 1] };
    let out = b.run(&empty(), &vec![tensor(vec![1, 2, 1], &[1, 2]), tensor(vec![1, 3, 1], &[3, 4, 99])]).unwrap();
    assert_eq!(out[0].shape, vec![1, 4, 1]);
    assert_eq!(ints(&out[0].data), vec![1, 2, 3, 4]);
    let three = vec![tensor(vec![1, 2, 1], &[1, 2]), tensor(vec![1, 2, 1], &[1, 2]), tensor(vec![1, 2, 1], &[1, 2])];
    let out = b.run(&empty(), &three).unwrap();
    assert_eq!(out[0].shape, vec![1, 8, 1]);
    assert_eq!(ints(&out[0].data), vec![1, 2, 1, 2, 1, 2, 0, 0]);
}
