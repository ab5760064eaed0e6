//! The additions that finish the convolutions whose kernel dimension is put
//! in the last dimension of the tensor. For a 2D convolution, a linear layer
//! first maps the input of shape `[1, H * W, C_in]` to one tensor of shape
//! `[1, H * W, C_out]` per kernel position; the blocks here add those up into
//! the output of shape `[1, H_out * W_out, C_out]`.
use crate::basic_block::CQOutOfRangeError;
use crate::field::{fadd, fe_add, fe_of, lemma_fe_of, Fe};
use crate::basic_block::concat::{axis_blocks, axis_sum, concat_shape, concat_tensors, joinable, joined, joined_row, shapes_of, tensor_parts};
use crate::tensor::{
    lemma_single_size, next_pow_spec, pad_to_pow_of_two, pow2_shape, resize, resized, shape_size, suffix_sizes_fit, Tensor,
};
use vstd::prelude::*;

verus! {

/// The sizes of a convolution: the input's depth (3D only), height and
/// width, the kernel's, the strides, the paddings, and the output channels.
#[derive(Debug, Clone)]
pub struct ConvShapeHelper {
    pub d: Option<i32>,
    pub h: i32,
    pub w: i32,
    pub k_d: Option<i32>,
    pub k_h: i32,
    pub k_w: i32,
    pub s_d: Option<i32>,
    pub s_h: i32,
    pub s_w: i32,
    pub p_d_front: Option<i32>,
    pub p_h_top: i32,
    pub p_w_left: i32,
    pub p_d_back: Option<i32>,
    pub p_h_bottom: i32,
    pub p_w_right: i32,
    pub out_channels: usize,
}

/// A 3D convolution transposed, for a kernel of the same size as its stride
/// and no padding. Inputs: `k_d * k_h * k_w` tensors of shape
/// `[1, D * H * W, C_out]`; output: shape `[1, D_out * H_out * W_out, C_out]`.
#[derive(Debug)]
pub struct Conv3DTransposeBasicBlock {
    pub input_shape: Vec<i32>,
    pub kernel_shape: Vec<i32>,
    pub stride: Vec<i32>,
    pub padding: Vec<i32>,
    pub out_channels: usize,
}

/// The addition that finishes a 3D convolution. Inputs: `k_d * k_h * k_w`
/// tensors of shape `[1, D * H * W, C_out]`; output: shape
/// `[1, D_out * H_out * W_out, C_out]`.
#[derive(Debug)]
pub struct Conv3DAddBasicBlock {
    pub input_shape: Vec<i32>,
    pub kernel_shape: Vec<i32>,
    pub stride: Vec<i32>,
    pub padding: Vec<i32>,
    pub out_channels: usize,
}

/// The addition that finishes a 2D convolution. Inputs: `k_h * k_w` tensors
/// of shape `[1, H * W, C_out]`; output: shape `[1, H_out * W_out, C_out]`.
#[derive(Debug)]
pub struct Conv2DAddBasicBlock {
    pub input_shape: Vec<i32>,
    pub kernel_shape: Vec<i32>,
    pub stride: Vec<i32>,
    pub padding: Vec<i32>,
    pub out_channels: usize,
}

/// The sizes of a 3D convolution: `[D, H, W]`, `[k_d, k_h, k_w]`,
/// `[s_d, s_h, s_w]` and the paddings `[front, top, left, back, bottom, right]`.
pub open spec fn shape_3d(
    input_shape: Seq<i32>,
    kernel_shape: Seq<i32>,
    stride: Seq<i32>,
    padding: Seq<i32>,
    out_channels: usize,
) -> ConvShapeHelper {
    ConvShapeHelper {
        d: Some(input_shape[0]),
        h: input_shape[1],
        w: input_shape[2],
        k_d: Some(kernel_shape[0]),
        k_h: kernel_shape[1],
        k_w: kernel_shape[2],
        s_d: Some(stride[0]),
        s_h: stride[1],
        s_w: stride[2],
        p_d_front: Some(padding[0]),
        p_h_top: padding[1],
        p_w_left: padding[2],
        p_d_back: Some(padding[3]),
        p_h_bottom: padding[4],
        p_w_right: padding[5],
        out_channels,
    }
}

/// The sizes of a 2D convolution: `[H, W]`, `[k_h, k_w]`, `[s_h, s_w]` and
/// the paddings `[top, left, bottom, right]`.
pub open spec fn shape_2d(
    input_shape: Seq<i32>,
    kernel_shape: Seq<i32>,
    stride: Seq<i32>,
    padding: Seq<i32>,
    out_channels: usize,
) -> ConvShapeHelper {
    ConvShapeHelper {
        d: None,
        h: input_shape[0],
        w: input_shape[1],
        k_d: None,
        k_h: kernel_shape[0],
        k_w: kernel_shape[1],
        s_d: None,
        s_h: stride[0],
        s_w: stride[1],
        p_d_front: None,
        p_h_top: padding[0],
        p_w_left: padding[1],
        p_d_back: None,
        p_h_bottom: padding[2],
        p_w_right: padding[3],
        out_channels,
    }
}

impl ConvShapeHelper {
    /// The sizes of a transposed 3D convolution.
    pub fn from_conv3d_transpose(conv: &Conv3DTransposeBasicBlock) -> (r: Self)
        requires
            conv.input_shape@.len() >= 3,
            conv.kernel_shape@.len() >= 3,
            conv.stride@.len() >= 3,
            conv.padding@.len() >= 6,
        ensures
            r == shape_3d(conv.input_shape@, conv.kernel_shape@, conv.stride@, conv.padding@, conv.out_channels),
    {
        ConvShapeHelper {
            d: Some(conv.input_shape[0]),
            h: conv.input_shape[1],
            w: conv.input_shape[2],
            k_d: Some(conv.kernel_shape[0]),
            k_h: conv.kernel_shape[1],
            k_w: conv.kernel_shape[2],
            s_d: Some(conv.stride[0]),
            s_h: conv.stride[1],
            s_w: conv.stride[2],
            p_d_front: Some(conv.padding[0]),
            p_h_top: conv.padding[1],
            p_w_left: conv.padding[2],
            p_d_back: Some(conv.padding[3]),
            p_h_bottom: conv.padding[4],
            p_w_right: conv.padding[5],
            out_channels: conv.out_channels,
        }
    }

    /// The sizes of a 3D convolution.
    pub fn from_conv3d_add(conv: &Conv3DAddBasicBlock) -> (r: Self)
        requires
            conv.input_shape@.len() >= 3,
            conv.kernel_shape@.len() >= 3,
            conv.stride@.len() >= 3,
            conv.padding@.len() >= 6,
        ensures
            r == shape_3d(conv.input_shape@, conv.kernel_shape@, conv.stride@, conv.padding@, conv.out_channels),
    {
        ConvShapeHelper {
            d: Some(conv.input_shape[0]),
            h: conv.input_shape[1],
            w: conv.input_shape[2],
            k_d: Some(conv.kernel_shape[0]),
            k_h: conv.kernel_shape[1],
            k_w: conv.kernel_shape[2],
            s_d: Some(conv.stride[0]),
            s_h: conv.stride[1],
            s_w: conv.stride[2],
            p_d_front: Some(conv.padding[0]),
            p_h_top: conv.padding[1],
            p_w_left: conv.padding[2],
            p_d_back: Some(conv.padding[3]),
            p_h_bottom: conv.padding[4],
            p_w_right: conv.padding[5],
            out_channels: conv.out_channels,
        }
    }

    /// The sizes of a 2D convolution.
    pub fn from_conv2d_add(conv: &Conv2DAddBasicBlock) -> (r: Self)
        requires
            conv.input_shape@.len() >= 2,
            conv.kernel_shape@.len() >= 2,
            conv.stride@.len() >= 2,
            conv.padding@.len() >= 4,
        ensures
            r == shape_2d(conv.input_shape@, conv.kernel_shape@, conv.stride@, conv.padding@, conv.out_channels),
    {
        ConvShapeHelper {
            d: None,
            h: conv.input_shape[0],
            w: conv.input_shape[1],
            k_d: None,
            k_h: conv.kernel_shape[0],
            k_w: conv.kernel_shape[1],
            s_d: None,
            s_h: conv.stride[0],
            s_w: conv.stride[1],
            p_d_front: None,
            p_h_top: conv.padding[0],
            p_w_left: conv.padding[1],
            p_d_back: None,
            p_h_bottom: conv.padding[2],
            p_w_right: conv.padding[3],
            out_channels: conv.out_channels,
        }
    }
}

/// Division that rounds towards zero, as `/` does on Rust's signed integers.
pub open spec fn tdiv(a: int, b: int) -> int {
    if a >= 0 {
        a / b
    } else {
        -((-a) / b)
    }
}

/// Whether a value fits in an `i32`.
pub open spec fn in_i32(v: int) -> bool {
    i32::MIN <= v <= i32::MAX
}

/// The number of steps of a loop over `0..n`.
pub open spec fn count(n: int) -> nat {
    if n > 0 {
        n as nat
    } else {
        0
    }
}

/// The length of an output dimension: `(n - k + p1 + p2) / s + 1`.
pub open spec fn out_len(n: int, k: int, p1: int, p2: int, s: int) -> int {
    tdiv(n - k + p1 + p2, s) + 1
}

/// The length of an output dimension can be computed in `i32`.
pub open spec fn out_len_fits(n: int, k: int, p1: int, p2: int, s: int) -> bool {
    &&& in_i32(n - k)
    &&& in_i32(n - k + p1)
    &&& in_i32(n - k + p1 + p2)
    &&& s != 0
    &&& !(n - k + p1 + p2 == i32::MIN && s == -1)
    &&& in_i32(out_len(n, k, p1, p2, s))
}

/// The input coordinate `o * s + x - p` can be computed in `i32` for every
/// output coordinate `o` and kernel offset `x`.
pub open spec fn coord_fits(o_len: int, k: int, s: int, p: int) -> bool {
    forall|o: int, x: int|
        0 <= o < o_len && 0 <= x < k ==> in_i32(#[trigger] (o * s)) && in_i32(o * s + x) && in_i32(
            #[trigger] (o * s + x - p),
        )
}

} // verus!

verus! {

/// A tensor of three dimensions holds the product of their lengths.
pub(crate) proof fn lemma_size3(s: Seq<usize>)
    requires
        s.len() == 3,
    ensures
        shape_size(s) == (s[0] as nat) * (s[1] as nat) * (s[2] as nat),
{
    let s1 = s.drop_first();
    let s2 = s1.drop_first();
    assert(s2.drop_first() =~= Seq::<usize>::empty());
    assert(shape_size(s2.drop_first()) == 1);
    assert(s2[0] == s[2] && s2.len() == 1);
    assert(shape_size(s2) == (s2[0] as nat) * shape_size(s2.drop_first()));
    assert(shape_size(s1) == (s[1] as nat) * shape_size(s2));
    assert((s[0] as nat) * ((s[1] as nat) * (s[2] as nat)) == (s[0] as nat) * (s[1] as nat) * (s[2] as nat))
        by (nonlinear_arith);
}

/// The height of the output of a 2D convolution.
pub open spec fn conv2_ho(s: ConvShapeHelper) -> int {
    out_len(s.h as int, s.k_h as int, s.p_h_top as int, s.p_h_bottom as int, s.s_h as int)
}

/// The width of the output of a 2D convolution.
pub open spec fn conv2_wo(s: ConvShapeHelper) -> int {
    out_len(s.w as int, s.k_w as int, s.p_w_left as int, s.p_w_right as int, s.s_w as int)
}

/// The input position that kernel offset `(x, y)` of output position
/// `(i, j)` reads: `(i * s_h + x - top, j * s_w + y - left)`.
pub open spec fn conv2_in(s: ConvShapeHelper, i: int, j: int, x: int, y: int) -> (int, int) {
    (i * s.s_h + x - s.p_h_top, j * s.s_w + y - s.p_w_left)
}

/// Whether an input position lies inside the `H x W` input.
pub open spec fn conv2_inside(s: ConvShapeHelper, p: (int, int)) -> bool {
    0 <= p.0 < s.h && 0 <= p.1 < s.w
}

/// What kernel offset `(x, y)` of output position `(i, j)` adds in channel
/// `c`: the element of input `x * k_w + y` at position `x_in * W + y_in`, if
/// the input position lies inside.
pub open spec fn conv2_term(inputs: Seq<Tensor<Fe>>, s: ConvShapeHelper, i: int, j: int, x: int, y: int, c: int) -> Option<
    nat,
> {
    let p = conv2_in(s, i, j, x, y);
    if conv2_inside(s, p) {
        let t = inputs[x * s.k_w + y];
        Some(t.data@[(p.0 * s.w + p.1) * t.shape@[2] + c]@)
    } else {
        None
    }
}

/// The sum, in order, of what the offsets `(x, 0 .. ny)` add, starting from `base`.
pub open spec fn conv2_cols(
    inputs: Seq<Tensor<Fe>>,
    s: ConvShapeHelper,
    i: int,
    j: int,
    c: int,
    x: int,
    ny: nat,
    base: nat,
) -> nat
    decreases ny,
{
    if ny == 0 {
        base
    } else {
        let prev = conv2_cols(inputs, s, i, j, c, x, (ny - 1) as nat, base);
        match conv2_term(inputs, s, i, j, x, ny - 1, c) {
            Some(v) => fadd(prev, v),
            None => prev,
        }
    }
}

/// The sum, in order, of what the kernel rows `0 .. nx` add to output
/// position `(i, j)` in channel `c`.
pub open spec fn conv2_value(inputs: Seq<Tensor<Fe>>, s: ConvShapeHelper, i: int, j: int, c: int, nx: nat) -> nat
    decreases nx,
{
    if nx == 0 {
        0
    } else {
        conv2_cols(inputs, s, i, j, c, nx - 1, count(s.k_w as int), conv2_value(inputs, s, i, j, c, (nx - 1) as nat))
    }
}

/// The element at row-major position `k` of the `[1, H_out * W_out, C_out]`
/// output before padding.
pub open spec fn conv2_at(inputs: Seq<Tensor<Fe>>, s: ConvShapeHelper, k: int) -> nat {
    let ho = conv2_ho(s);
    let wo = conv2_wo(s);
    let nc = s.out_channels as int;
    if ho > 0 && wo > 0 {
        let pos = k / nc;
        conv2_value(inputs, s, pos / wo, pos % wo, k % nc, count(s.k_h as int))
    } else {
        0
    }
}

/// The `[1, H_out * W_out, C_out]` output before padding.
pub open spec fn conv2_out(inputs: Seq<Tensor<Fe>>, s: ConvShapeHelper) -> Seq<Fe> {
    Seq::new(((conv2_ho(s) * conv2_wo(s)) as nat) * (s.out_channels as nat), |k: int| fe_of(conv2_at(inputs, s, k)))
}

/// The input that kernel offset `(x, y)` of output position `(i, j)` reads,
/// if the input position lies inside, exists and holds that position in
/// every output channel.
pub open spec fn conv2_read_ok(inputs: Seq<Tensor<Fe>>, s: ConvShapeHelper, i: int, j: int, x: int, y: int) -> bool {
    let p = conv2_in(s, i, j, x, y);
    conv2_inside(s, p) ==> {
        let idx = x * s.k_w + y;
        &&& 0 <= idx < inputs.len()
        &&& inputs[idx].wf()
        &&& inputs[idx].shape@.len() == 3
        &&& inputs[idx].shape@[0] >= 1
        &&& p.0 * s.w + p.1 < inputs[idx].shape@[1]
        &&& s.out_channels <= inputs[idx].shape@[2]
    }
}

/// The shape of the output of a convolution of `n` positions before padding.
pub open spec fn conv_out_shape(n: int, c: usize) -> Seq<usize> {
    seq![1usize, n as usize, c]
}

/// The inputs a 2D convolution addition accepts: every number of the
/// index computation fits in an `i32`, every read lies inside its input,
/// and the padded output's sizes fit in a `usize`.
pub open spec fn conv2_accepts(s: ConvShapeHelper, inputs: Seq<Tensor<Fe>>) -> bool {
    let ho = conv2_ho(s);
    let wo = conv2_wo(s);
    &&& out_len_fits(s.h as int, s.k_h as int, s.p_h_top as int, s.p_h_bottom as int, s.s_h as int)
    &&& out_len_fits(s.w as int, s.k_w as int, s.p_w_left as int, s.p_w_right as int, s.s_w as int)
    &&& in_i32(ho * wo)
    &&& ho * wo >= 0
    &&& coord_fits(ho, s.k_h as int, s.s_h as int, s.p_h_top as int)
    &&& coord_fits(wo, s.k_w as int, s.s_w as int, s.p_w_left as int)
    &&& forall|x: int, y: int|
        0 <= x < s.k_h && 0 <= y < s.k_w ==> in_i32(x * s.k_w) && in_i32(#[trigger] (x * s.k_w + y))
    &&& forall|i: int, j: int, x: int, y: int|
        0 <= i < ho && 0 <= j < wo && 0 <= x < s.k_h && 0 <= y < s.k_w ==> #[trigger] conv2_read_ok(
            inputs,
            s,
            i,
            j,
            x,
            y,
        )
    &&& (ho * wo) * s.out_channels <= usize::MAX
    &&& forall|d: int|
        0 <= d < 3 ==> next_pow_spec(#[trigger] conv_out_shape(ho * wo, s.out_channels)[d] as nat) <= usize::MAX
    &&& suffix_sizes_fit(pow2_shape(conv_out_shape(ho * wo, s.out_channels)))
}

/// The sum over the kernel for output position `(i, j)` in channel `c`.
fn conv2_point(inputs: &Vec<Tensor<Fe>>, s: &ConvShapeHelper, i: i64, j: i64, c: usize) -> (r: Fe)
    requires
        conv2_accepts(*s, inputs@),
        0 <= i < conv2_ho(*s),
        0 <= j < conv2_wo(*s),
        c < s.out_channels,
    ensures
        r@ == conv2_value(inputs@, *s, i as int, j as int, c as int, count(s.k_h as int)),
{
    let kh = s.k_h as i64;
    let kw = s.k_w as i64;
    let mut sum = Fe::zero();
    let mut x: i64 = 0;
    while x < kh
        invariant
            conv2_accepts(*s, inputs@),
            0 <= i < conv2_ho(*s),
            0 <= j < conv2_wo(*s),
            c < s.out_channels,
            kh == s.k_h,
            kw == s.k_w,
            0 <= x,
            x <= kh || x == 0,
            sum@ == conv2_value(inputs@, *s, i as int, j as int, c as int, x as nat),
        decreases kh - x,
    {
        let ghost base = sum@;
        let mut y: i64 = 0;
        while y < kw
            invariant
                conv2_accepts(*s, inputs@),
                0 <= i < conv2_ho(*s),
                0 <= j < conv2_wo(*s),
                c < s.out_channels,
                kh == s.k_h,
                kw == s.k_w,
                0 <= x < kh,
                0 <= y,
                y <= kw || y == 0,
                sum@ == conv2_cols(inputs@, *s, i as int, j as int, c as int, x as int, y as nat, base),
            decreases kw - y,
        {
            assert(conv2_read_ok(inputs@, *s, i as int, j as int, x as int, y as int));
            let xin = i * (s.s_h as i64) + x - (s.p_h_top as i64);
            let yin = j * (s.s_w as i64) + y - (s.p_w_left as i64);
            if xin >= 0 && xin < s.h as i64 && yin >= 0 && yin < s.w as i64 {
                let idx = (x * kw + y) as usize;
                let t = &inputs[idx];
                proof {
                    assert(0 <= xin * (s.w as i64) + yin < 0x4000_0000_0000_0000) by (nonlinear_arith)
                        requires
                            0 <= xin < s.h,
                            0 <= yin < s.w,
                            s.h <= i32::MAX,
                            s.w <= i32::MAX,
                    ;
                }
                let pos = (xin * (s.w as i64) + yin) as usize;
                let dlen = t.data.len();
                proof {
                    lemma_size3(t.shape@);
                    assert(pos * t.shape@[2] + c < t.shape@[0] * t.shape@[1] * t.shape@[2]) by (nonlinear_arith)
                        requires
                            pos < t.shape@[1],
                            c < t.shape@[2],
                            t.shape@[0] >= 1,
                    ;
                }
                let e = t.data[pos * t.shape[2] + c];
                sum = fe_add(&sum, &e);
            }
            y = y + 1;
        }
        x = x + 1;
    }
    sum
}

} // verus!

verus! {

/// Position `(i * wo + j) * nc + c` of a row-major `[ho * wo, nc]` layout
/// holds row `i * wo + j` (which is `(i, j)` of `[ho, wo]`) and column `c`.
pub(crate) proof fn lemma_layout(ho: int, wo: int, nc: int, i: int, j: int, c: int)
    requires
        0 <= i < ho,
        0 <= j < wo,
        0 <= c < nc,
    ensures
        ((i * wo + j) * nc + c) / nc == i * wo + j,
        ((i * wo + j) * nc + c) % nc == c,
        (i * wo + j) / wo == i,
        (i * wo + j) % wo == j,
        0 <= (i * wo + j) * nc + c < (ho * wo) * nc,
        i * wo + j < ho * wo,
{
    vstd::arithmetic::div_mod::lemma_fundamental_div_mod_converse((i * wo + j) * nc + c, nc, i * wo + j, c);
    vstd::arithmetic::div_mod::lemma_fundamental_div_mod_converse(i * wo + j, wo, i, j);
    assert(i * wo + j < ho * wo) by (nonlinear_arith)
        requires
            0 <= i < ho,
            0 <= j < wo,
    ;
    assert(0 <= (i * wo + j) * nc + c < (ho * wo) * nc) by (nonlinear_arith)
        requires
            0 <= i * wo + j < ho * wo,
            0 <= c < nc,
    ;
}

impl Conv2DAddBasicBlock {
    /// The sizes of this convolution.
    pub open spec fn shape(&self) -> ConvShapeHelper {
        shape_2d(self.input_shape@, self.kernel_shape@, self.stride@, self.padding@, self.out_channels)
    }

    /// The inputs `run` accepts.
    pub open spec fn accepts(&self, inputs: Seq<Tensor<Fe>>) -> bool {
        &&& self.input_shape@.len() >= 2
        &&& self.kernel_shape@.len() >= 2
        &&& self.stride@.len() >= 2
        &&& self.padding@.len() >= 4
        &&& conv2_accepts(self.shape(), inputs)
    }

    pub fn run(&self, _model: &Tensor<Fe>, inputs: &Vec<Tensor<Fe>>) -> (r: Result<Vec<Tensor<Fe>>, CQOutOfRangeError>)
        requires
            self.accepts(inputs@),
        ensures
            ({
                let s = self.shape();
                let os = conv_out_shape(conv2_ho(s) * conv2_wo(s), s.out_channels);
                r matches Ok(v) && v@.len() == 1 && v@[0].wf() && v@[0].shape@ == pow2_shape(os) && v@[0].data@
                    == resized(conv2_out(inputs@, s), os, pow2_shape(os), fe_of(0))
            }),
    {
        let s = ConvShapeHelper::from_conv2d_add(self);
        let ho: i64 = (s.h as i64 - s.k_h as i64 + s.p_h_top as i64 + s.p_h_bottom as i64) / (s.s_h as i64) + 1;
        let wo: i64 = (s.w as i64 - s.k_w as i64 + s.p_w_left as i64 + s.p_w_right as i64) / (s.s_w as i64) + 1;
        assert(ho == conv2_ho(s) && wo == conv2_wo(s));
        let n = (ho * wo) as usize;
        let nc = s.out_channels;
        let ghost out = conv2_out(inputs@, s);
        assert(n == ho * wo);
        let zero = Fe::zero();
        proof {
            lemma_fe_of(zero);
        }
        let mut data: Vec<Fe> = Vec::new();
        if ho > 0 && wo > 0 {
            let mut i: i64 = 0;
            proof {
                assert(0 * wo * nc == 0) by (nonlinear_arith);
            }
            while i < ho
                invariant
                    conv2_accepts(s, inputs@),
                    s == self.shape(),
                    out == conv2_out(inputs@, s),
                    ho == conv2_ho(s),
                    wo == conv2_wo(s),
                    nc == s.out_channels,
                    wo > 0,
                    0 <= i <= ho,
                    data@ == out.take(i * wo * nc),
                decreases ho - i,
            {
                let mut j: i64 = 0;
                while j < wo
                    invariant
                        conv2_accepts(s, inputs@),
                        s == self.shape(),
                        out == conv2_out(inputs@, s),
                        ho == conv2_ho(s),
                        wo == conv2_wo(s),
                        nc == s.out_channels,
                        0 <= i < ho,
                        0 <= j <= wo,
                        data@ == out.take((i * wo + j) * nc),
                    decreases wo - j,
                {
                    let mut c: usize = 0;
                    while c < nc
                        invariant
                            conv2_accepts(s, inputs@),
                            s == self.shape(),
                            out == conv2_out(inputs@, s),
                            ho == conv2_ho(s),
                            wo == conv2_wo(s),
                            nc == s.out_channels,
                            0 <= i < ho,
                            0 <= j < wo,
                            c <= nc,
                            data@ == out.take((i * wo + j) * nc + c),
                        decreases nc - c,
                    {
                        let v = conv2_point(inputs, &s, i, j, c);
                        proof {
                            lemma_layout(ho as int, wo as int, nc as int, i as int, j as int, c as int);
                            lemma_fe_of(v);
                            let k = (i * wo + j) * nc + c;
                            assert(out[k] == v);
                        }
                        data.push(v);
                        c = c + 1;
                        proof {
                            assert(data@ =~= out.take((i * wo + j) * nc + c));
                        }
                    }
                    j = j + 1;
                    proof {
                        assert((i * wo + (j - 1)) * nc + nc == (i * wo + j) * nc) by (nonlinear_arith);
                    }
                }
                i = i + 1;
                proof {
                    assert(((i - 1) * wo + wo) * nc == i * wo * nc) by (nonlinear_arith);
                }
            }
            proof {
                assert(data@ =~= out);
            }
        } else {
            let total = n * nc;
            let mut k: usize = 0;
            while k < total
                invariant
                    out == conv2_out(inputs@, s),
                    !(conv2_ho(s) > 0 && conv2_wo(s) > 0),
                    total == out.len(),
                    zero == fe_of(0),
                    k <= total,
                    data@ == out.take(k as int),
                decreases total - k,
            {
                data.push(zero);
                k = k + 1;
                proof {
                    assert(data@ =~= out.take(k as int));
                }
            }
            proof {
                assert(data@ =~= out);
            }
        }
        let padded = pad_conv_output(data, n, nc, zero);
        let mut v: Vec<Tensor<Fe>> = Vec::new();
        v.push(padded);
        Ok(v)
    }
}

/// The output of `n` positions and `nc` channels, as a tensor of shape
/// `[1, n, nc]` padded with zeros to powers of two.
fn pad_conv_output(data: Vec<Fe>, n: usize, nc: usize, zero: Fe) -> (r: Tensor<Fe>)
    requires
        data@.len() == n * nc,
        n * nc <= usize::MAX,
        forall|d: int| 0 <= d < 3 ==> next_pow_spec(#[trigger] conv_out_shape(n as int, nc)[d] as nat) <= usize::MAX,
        suffix_sizes_fit(pow2_shape(conv_out_shape(n as int, nc))),
    ensures
        r.wf(),
        r.shape@ == pow2_shape(conv_out_shape(n as int, nc)),
        r.data@ == resized(data@, conv_out_shape(n as int, nc), pow2_shape(conv_out_shape(n as int, nc)), zero),
{
    let mut shape: Vec<usize> = Vec::new();
    shape.push(1);
    shape.push(n);
    shape.push(nc);
    proof {
        let os = conv_out_shape(n as int, nc);
        assert(shape@ =~= os);
        lemma_size3(os);
        assert(os[0] == 1 && os[1] == n && os[2] == nc);
        assert(shape_size(os) == n * nc) by (nonlinear_arith)
            requires
                shape_size(os) == (os[0] as nat) * (os[1] as nat) * (os[2] as nat),
                os[0] == 1,
                os[1] == n,
                os[2] == nc,
        ;
        assert(suffix_sizes_fit(os)) by {
            assert forall|m: int| 0 <= m <= os.len() implies #[trigger] shape_size(os.skip(m)) <= usize::MAX by {
                if m == 0 {
                    assert(os.skip(0) =~= os);
                } else if m == 1 {
                    assert(os.skip(1) =~= seq![n, nc]);
                    lemma_size2(n, nc);
                } else if m == 2 {
                    assert(os.skip(2) =~= seq![nc]);
                    lemma_single_size(nc);
                } else {
                    assert(os.skip(3) =~= Seq::<usize>::empty());
                }
            }
        }
    }
    let pre = Tensor { shape, data };
    pad_to_pow_of_two(&pre, zero)
}

/// A tensor of shape `[a, b]` holds `a * b` elements.
pub(crate) proof fn lemma_size2(a: usize, b: usize)
    ensures
        shape_size(seq![a, b]) == (a as nat) * (b as nat),
{
    let s = seq![a, b];
    assert(s.drop_first() =~= seq![b]);
    lemma_single_size(b);
    assert(shape_size(s) == (a as nat) * shape_size(s.drop_first()));
}

} // verus!

verus! {

/// The depth of the output of a 3D convolution.
pub open spec fn conv3_do(s: ConvShapeHelper) -> int {
    out_len(s.d->0 as int, s.k_d->0 as int, s.p_d_front->0 as int, s.p_d_back->0 as int, s.s_d->0 as int)
}

/// The input position that kernel offset `(x, y, z)` of output position
/// `(i, j, k)` reads.
pub open spec fn conv3_in(s: ConvShapeHelper, i: int, j: int, k: int, x: int, y: int, z: int) -> (int, int, int) {
    (i * (s.s_d->0) + x - s.p_d_front->0, j * s.s_h + y - s.p_h_top, k * s.s_w + z - s.p_w_left)
}

/// Whether an input position lies inside the `D x H x W` input.
pub open spec fn conv3_inside(s: ConvShapeHelper, p: (int, int, int)) -> bool {
    0 <= p.0 < s.d->0 && 0 <= p.1 < s.h && 0 <= p.2 < s.w
}

/// The input of kernel offset `(x, y, z)`: `x * k_h * k_w + y * k_w + z`.
pub open spec fn kernel_index3(s: ConvShapeHelper, x: int, y: int, z: int) -> int {
    x * s.k_h * s.k_w + y * s.k_w + z
}

/// The row of input position `p` in a `[1, D * H * W, C]` tensor.
pub open spec fn row3(s: ConvShapeHelper, p: (int, int, int)) -> int {
    p.0 * s.h * s.w + p.1 * s.w + p.2
}

/// What kernel offset `(x, y, z)` of output position `(i, j, k)` adds in
/// channel `c`, if the input position lies inside.
pub open spec fn conv3_term(
    inputs: Seq<Tensor<Fe>>,
    s: ConvShapeHelper,
    i: int,
    j: int,
    k: int,
    x: int,
    y: int,
    z: int,
    c: int,
) -> Option<nat> {
    let p = conv3_in(s, i, j, k, x, y, z);
    if conv3_inside(s, p) {
        let t = inputs[kernel_index3(s, x, y, z)];
        Some(t.data@[row3(s, p) * t.shape@[2] + c]@)
    } else {
        None
    }
}

/// The sum, in order, of what the offsets `(x, y, 0 .. nz)` add, from `base`.
pub open spec fn conv3_z(
    inputs: Seq<Tensor<Fe>>,
    s: ConvShapeHelper,
    o: (int, int, int),
    c: int,
    x: int,
    y: int,
    nz: nat,
    base: nat,
) -> nat
    decreases nz,
{
    if nz == 0 {
        base
    } else {
        let prev = conv3_z(inputs, s, o, c, x, y, (nz - 1) as nat, base);
        match conv3_term(inputs, s, o.0, o.1, o.2, x, y, nz - 1, c) {
            Some(v) => fadd(prev, v),
            None => prev,
        }
    }
}

/// The sum, in order, of what the offsets `(x, 0 .. ny, _)` add, from `base`.
pub open spec fn conv3_y(
    inputs: Seq<Tensor<Fe>>,
    s: ConvShapeHelper,
    o: (int, int, int),
    c: int,
    x: int,
    ny: nat,
    base: nat,
) -> nat
    decreases ny,
{
    if ny == 0 {
        base
    } else {
        conv3_z(inputs, s, o, c, x, ny - 1, count(s.k_w as int), conv3_y(inputs, s, o, c, x, (ny - 1) as nat, base))
    }
}

/// The sum, in order, of what the kernel planes `0 .. nx` add to output
/// position `o` in channel `c`.
pub open spec fn conv3_value(inputs: Seq<Tensor<Fe>>, s: ConvShapeHelper, o: (int, int, int), c: int, nx: nat) -> nat
    decreases nx,
{
    if nx == 0 {
        0
    } else {
        conv3_y(inputs, s, o, c, nx - 1, count(s.k_h as int), conv3_value(inputs, s, o, c, (nx - 1) as nat))
    }
}

/// The output position of row `pos` of a `[D_out * H_out * W_out]` layout.
pub open spec fn unrow3(pos: int, ho: int, wo: int) -> (int, int, int) {
    ((pos / wo) / ho, (pos / wo) % ho, pos % wo)
}

/// The element at row-major position `q` of the 3D convolution's output
/// before padding.
pub open spec fn conv3_at(inputs: Seq<Tensor<Fe>>, s: ConvShapeHelper, q: int) -> nat {
    let nd = conv3_do(s);
    let ho = conv2_ho(s);
    let wo = conv2_wo(s);
    let nc = s.out_channels as int;
    if nd > 0 && ho > 0 && wo > 0 {
        conv3_value(inputs, s, unrow3(q / nc, ho, wo), q % nc, count(s.k_d->0 as int))
    } else {
        0
    }
}

/// The `[1, D_out * H_out * W_out, C_out]` output of a 3D convolution
/// before padding.
pub open spec fn conv3_out(inputs: Seq<Tensor<Fe>>, s: ConvShapeHelper) -> Seq<Fe> {
    Seq::new(
        ((conv3_do(s) * conv2_ho(s) * conv2_wo(s)) as nat) * (s.out_channels as nat),
        |q: int| fe_of(conv3_at(inputs, s, q)),
    )
}

/// The input that kernel offset `(x, y, z)` of output position `o` reads,
/// if the input position lies inside, exists and holds that position in
/// every output channel.
pub open spec fn conv3_read_ok(inputs: Seq<Tensor<Fe>>, s: ConvShapeHelper, o: (int, int, int), x: int, y: int, z: int) -> bool {
    let p = conv3_in(s, o.0, o.1, o.2, x, y, z);
    conv3_inside(s, p) ==> {
        let idx = kernel_index3(s, x, y, z);
        &&& 0 <= idx < inputs.len()
        &&& inputs[idx].wf()
        &&& inputs[idx].shape@.len() == 3
        &&& inputs[idx].shape@[0] >= 1
        &&& row3(s, p) < inputs[idx].shape@[1]
        &&& s.out_channels <= inputs[idx].shape@[2]
    }
}

/// The kernel index `x * k_h * k_w + y * k_w + z` can be computed in `i32`.
pub open spec fn kernel_index3_fits(s: ConvShapeHelper, x: int, y: int, z: int) -> bool {
    &&& in_i32(x * s.k_h)
    &&& in_i32(x * s.k_h * s.k_w)
    &&& in_i32(y * s.k_w)
    &&& in_i32(x * s.k_h * s.k_w + y * s.k_w)
    &&& in_i32(kernel_index3(s, x, y, z))
}

/// The inputs a 3D convolution addition accepts: every number of the
/// index computation fits in an `i32`, every read lies inside its input,
/// and the padded output's sizes fit in a `usize`.
pub open spec fn conv3_accepts(s: ConvShapeHelper, inputs: Seq<Tensor<Fe>>) -> bool {
    let nd = conv3_do(s);
    let ho = conv2_ho(s);
    let wo = conv2_wo(s);
    &&& s.d is Some && s.k_d is Some && s.s_d is Some && s.p_d_front is Some && s.p_d_back is Some
    &&& out_len_fits(s.d->0 as int, s.k_d->0 as int, s.p_d_front->0 as int, s.p_d_back->0 as int, s.s_d->0 as int)
    &&& out_len_fits(s.h as int, s.k_h as int, s.p_h_top as int, s.p_h_bottom as int, s.s_h as int)
    &&& out_len_fits(s.w as int, s.k_w as int, s.p_w_left as int, s.p_w_right as int, s.s_w as int)
    &&& in_i32(nd * ho)
    &&& in_i32(nd * ho * wo)
    &&& nd * ho * wo >= 0
    &&& coord_fits(nd, s.k_d->0 as int, s.s_d->0 as int, s.p_d_front->0 as int)
    &&& coord_fits(ho, s.k_h as int, s.s_h as int, s.p_h_top as int)
    &&& coord_fits(wo, s.k_w as int, s.s_w as int, s.p_w_left as int)
    &&& forall|x: int, y: int, z: int|
        0 <= x < s.k_d->0 && 0 <= y < s.k_h && 0 <= z < s.k_w ==> #[trigger] kernel_index3_fits(s, x, y, z)
    &&& forall|i: int, j: int, k: int, x: int, y: int, z: int|
        0 <= i < nd && 0 <= j < ho && 0 <= k < wo && 0 <= x < s.k_d->0 && 0 <= y < s.k_h && 0 <= z < s.k_w
            ==> #[trigger] conv3_read_ok(inputs, s, (i, j, k), x, y, z)
    &&& (nd * ho * wo) * s.out_channels <= usize::MAX
    &&& forall|d: int|
        0 <= d < 3 ==> next_pow_spec(#[trigger] conv_out_shape(nd * ho * wo, s.out_channels)[d] as nat)
            <= usize::MAX
    &&& suffix_sizes_fit(pow2_shape(conv_out_shape(nd * ho * wo, s.out_channels)))
}

/// The element of input `idx` at row `row`, channel `c`, for a read that
/// `conv3_read_ok` or `conv2_read_ok` allows.
fn read_at(inputs: &Vec<Tensor<Fe>>, idx: usize, row: usize, c: usize) -> (r: Fe)
    requires
        idx < inputs@.len(),
        inputs@[idx as int].wf(),
        inputs@[idx as int].shape@.len() == 3,
        inputs@[idx as int].shape@[0] >= 1,
        row < inputs@[idx as int].shape@[1],
        c < inputs@[idx as int].shape@[2],
    ensures
        r == inputs@[idx as int].data@[row * inputs@[idx as int].shape@[2] + c],
{
    let t = &inputs[idx];
    let dlen = t.data.len();
    proof {
        lemma_size3(t.shape@);
        assert(row * t.shape@[2] + c < t.shape@[0] * t.shape@[1] * t.shape@[2]) by (nonlinear_arith)
            requires
                row < t.shape@[1],
                c < t.shape@[2],
                t.shape@[0] >= 1,
        ;
    }
    t.data[row * t.shape[2] + c]
}

/// The sum over the kernel for output position `o` in channel `c`.
fn conv3_point(inputs: &Vec<Tensor<Fe>>, s: &ConvShapeHelper, o: (i64, i64, i64), c: usize) -> (r: Fe)
    requires
        conv3_accepts(*s, inputs@),
        0 <= o.0 < conv3_do(*s),
        0 <= o.1 < conv2_ho(*s),
        0 <= o.2 < conv2_wo(*s),
        c < s.out_channels,
    ensures
        r@ == conv3_value(inputs@, *s, (o.0 as int, o.1 as int, o.2 as int), c as int, count(s.k_d->0 as int)),
{
    let ghost og = (o.0 as int, o.1 as int, o.2 as int);
    let kd = s.k_d.unwrap() as i64;
    let kh = s.k_h as i64;
    let kw = s.k_w as i64;
    let sd = s.s_d.unwrap() as i64;
    let pf = s.p_d_front.unwrap() as i64;
    let dd = s.d.unwrap() as i64;
    let mut sum = Fe::zero();
    let mut x: i64 = 0;
    while x < kd
        invariant
            conv3_accepts(*s, inputs@),
            0 <= o.0 < conv3_do(*s),
            0 <= o.1 < conv2_ho(*s),
            0 <= o.2 < conv2_wo(*s),
            og == (o.0 as int, o.1 as int, o.2 as int),
            c < s.out_channels,
            kd == s.k_d->0,
            kh == s.k_h,
            kw == s.k_w,
            sd == s.s_d->0,
            pf == s.p_d_front->0,
            dd == s.d->0,
            0 <= x,
            x <= kd || x == 0,
            sum@ == conv3_value(inputs@, *s, og, c as int, x as nat),
        decreases kd - x,
    {
        let ghost base_x = sum@;
        let mut y: i64 = 0;
        while y < kh
            invariant
                conv3_accepts(*s, inputs@),
                0 <= o.0 < conv3_do(*s),
                0 <= o.1 < conv2_ho(*s),
                0 <= o.2 < conv2_wo(*s),
                og == (o.0 as int, o.1 as int, o.2 as int),
                c < s.out_channels,
                kd == s.k_d->0,
                kh == s.k_h,
                kw == s.k_w,
                sd == s.s_d->0,
                pf == s.p_d_front->0,
                dd == s.d->0,
                0 <= x < kd,
                0 <= y,
                y <= kh || y == 0,
                sum@ == conv3_y(inputs@, *s, og, c as int, x as int, y as nat, base_x),
            decreases kh - y,
        {
            let ghost base_y = sum@;
            let mut z: i64 = 0;
            while z < kw
                invariant
                    conv3_accepts(*s, inputs@),
                    0 <= o.0 < conv3_do(*s),
                    0 <= o.1 < conv2_ho(*s),
                    0 <= o.2 < conv2_wo(*s),
                    og == (o.0 as int, o.1 as int, o.2 as int),
                    c < s.out_channels,
                    kd == s.k_d->0,
                    kh == s.k_h,
                    kw == s.k_w,
                    sd == s.s_d->0,
                    pf == s.p_d_front->0,
                    dd == s.d->0,
                    0 <= x < kd,
                    0 <= y < kh,
                    0 <= z,
                    z <= kw || z == 0,
                    sum@ == conv3_z(inputs@, *s, og, c as int, x as int, y as int, z as nat, base_y),
                decreases kw - z,
            {
                assert(conv3_read_ok(inputs@, *s, og, x as int, y as int, z as int));
                assert(kernel_index3_fits(*s, x as int, y as int, z as int));
                let xin = o.0 * sd + x - pf;
                let yin = o.1 * (s.s_h as i64) + y - (s.p_h_top as i64);
                let zin = o.2 * (s.s_w as i64) + z - (s.p_w_left as i64);
                if xin >= 0 && xin < dd && yin >= 0 && yin < s.h as i64 && zin >= 0 && zin < s.w as i64 {
                    let idx = (x * kh * kw + y * kw + z) as usize;
                    proof {
                        assert(row3(*s, (xin as int, yin as int, zin as int)) < inputs@[idx as int].shape@[1]);
                    }
                    let ghost rw = row3(*s, (xin as int, yin as int, zin as int));
                    proof {
                        assert(0 <= (xin as int) * (s.h as int) * (s.w as int) <= rw) by (nonlinear_arith)
                            requires
                                rw == (xin as int) * (s.h as int) * (s.w as int) + (yin as int) * (s.w as int) + zin,
                                0 <= xin,
                                0 <= yin,
                                0 <= zin,
                                0 < s.h,
                                0 < s.w,
                        ;
                        assert(0 <= (xin as int) * (s.h as int) <= (xin as int) * (s.h as int) * (s.w as int))
                            by (nonlinear_arith)
                            requires
                                0 <= xin,
                                0 < s.h,
                                0 < s.w,
                        ;
                        assert(0 <= (yin as int) * (s.w as int) <= rw) by (nonlinear_arith)
                            requires
                                rw == (xin as int) * (s.h as int) * (s.w as int) + (yin as int) * (s.w as int) + zin,
                                0 <= xin,
                                0 <= yin,
                                0 <= zin,
                                0 < s.h,
                                0 < s.w,
                        ;
                    }
                    let row = (xin as usize) * (s.h as usize) * (s.w as usize) + (yin as usize) * (s.w as usize) + (zin as usize);
                    let e = read_at(inputs, idx, row, c);
                    sum = fe_add(&sum, &e);
                }
                z = z + 1;
            }
            y = y + 1;
        }
        x = x + 1;
    }
    sum
}

} // verus!

verus! {

/// Row `(i * ho + j) * wo + k` of a `[nd * ho * wo]` layout is output
/// position `(i, j, k)`, and position `row * nc + c` holds that row's
/// channel `c`.
pub(crate) proof fn lemma_layout3(nd: int, ho: int, wo: int, nc: int, i: int, j: int, k: int, c: int)
    requires
        0 <= i < nd,
        0 <= j < ho,
        0 <= k < wo,
        0 <= c < nc,
    ensures
        ({
            let row = (i * ho + j) * wo + k;
            let q = row * nc + c;
            &&& q / nc == row
            &&& q % nc == c
            &&& unrow3(row, ho, wo) == (i, j, k)
            &&& 0 <= q < (nd * ho * wo) * nc
        }),
{
    lemma_layout(nd, ho, 1, i, j, 0);
    assert((i * ho + j) * 1 + 0 == i * ho + j);
    assert(i * ho + j < nd * ho);
    lemma_layout(nd * ho, wo, nc, i * ho + j, k, c);
    assert((nd * ho) * wo == nd * ho * wo) by (nonlinear_arith);
}

impl Conv3DAddBasicBlock {
    /// The sizes of this convolution.
    pub open spec fn shape(&self) -> ConvShapeHelper {
        shape_3d(self.input_shape@, self.kernel_shape@, self.stride@, self.padding@, self.out_channels)
    }

    /// The inputs `run` accepts.
    pub open spec fn accepts(&self, inputs: Seq<Tensor<Fe>>) -> bool {
        &&& self.input_shape@.len() >= 3
        &&& self.kernel_shape@.len() >= 3
        &&& self.stride@.len() >= 3
        &&& self.padding@.len() >= 6
        &&& conv3_accepts(self.shape(), inputs)
    }

    pub fn run(&self, _model: &Tensor<Fe>, inputs: &Vec<Tensor<Fe>>) -> (r: Result<Vec<Tensor<Fe>>, CQOutOfRangeError>)
        requires
            self.accepts(inputs@),
        ensures
            ({
                let s = self.shape();
                let os = conv_out_shape(conv3_do(s) * conv2_ho(s) * conv2_wo(s), s.out_channels);
                r matches Ok(v) && v@.len() == 1 && v@[0].wf() && v@[0].shape@ == pow2_shape(os) && v@[0].data@
                    == resized(conv3_out(inputs@, s), os, pow2_shape(os), fe_of(0))
            }),
    {
        let s = ConvShapeHelper::from_conv3d_add(self);
        let nd: i64 = (s.d.unwrap() as i64 - s.k_d.unwrap() as i64 + s.p_d_front.unwrap() as i64
            + s.p_d_back.unwrap() as i64) / (s.s_d.unwrap() as i64) + 1;
        let ho: i64 = (s.h as i64 - s.k_h as i64 + s.p_h_top as i64 + s.p_h_bottom as i64) / (s.s_h as i64) + 1;
        let wo: i64 = (s.w as i64 - s.k_w as i64 + s.p_w_left as i64 + s.p_w_right as i64) / (s.s_w as i64) + 1;
        assert(nd == conv3_do(s) && ho == conv2_ho(s) && wo == conv2_wo(s));
        let n = (nd * ho * wo) as usize;
        let nc = s.out_channels;
        let ghost out = conv3_out(inputs@, s);
        assert(n == nd * ho * wo);
        let zero = Fe::zero();
        proof {
            lemma_fe_of(zero);
        }
        let mut data: Vec<Fe> = Vec::new();
        if nd > 0 && ho > 0 && wo > 0 {
            let mut i: i64 = 0;
            proof {
                assert(((0 * ho + 0) * wo + 0) * nc == 0) by (nonlinear_arith);
            }
            while i < nd
                invariant
                    conv3_accepts(s, inputs@),
                    s == self.shape(),
                    out == conv3_out(inputs@, s),
                    nd == conv3_do(s),
                    ho == conv2_ho(s),
                    wo == conv2_wo(s),
                    nc == s.out_channels,
                    ho > 0,
                    wo > 0,
                    0 <= i <= nd,
                    data@ == out.take(((i * ho + 0) * wo + 0) * nc),
                decreases nd - i,
            {
                let mut j: i64 = 0;
                while j < ho
                    invariant
                        conv3_accepts(s, inputs@),
                        s == self.shape(),
                        out == conv3_out(inputs@, s),
                        nd == conv3_do(s),
                        ho == conv2_ho(s),
                        wo == conv2_wo(s),
                        nc == s.out_channels,
                        wo > 0,
                        0 <= i < nd,
                        0 <= j <= ho,
                        data@ == out.take(((i * ho + j) * wo + 0) * nc),
                    decreases ho - j,
                {
                    let mut k: i64 = 0;
                    while k < wo
                        invariant
                            conv3_accepts(s, inputs@),
                            s == self.shape(),
                            out == conv3_out(inputs@, s),
                            nd == conv3_do(s),
                            ho == conv2_ho(s),
                            wo == conv2_wo(s),
                            nc == s.out_channels,
                            0 <= i < nd,
                            0 <= j < ho,
                            0 <= k <= wo,
                            data@ == out.take(((i * ho + j) * wo + k) * nc),
                        decreases wo - k,
                    {
                        let mut c: usize = 0;
                        while c < nc
                            invariant
                                conv3_accepts(s, inputs@),
                                s == self.shape(),
                                out == conv3_out(inputs@, s),
                                nd == conv3_do(s),
                                ho == conv2_ho(s),
                                wo == conv2_wo(s),
                                nc == s.out_channels,
                                0 <= i < nd,
                                0 <= j < ho,
                                0 <= k < wo,
                                c <= nc,
                                data@ == out.take(((i * ho + j) * wo + k) * nc + c),
                            decreases nc - c,
                        {
                            let v = conv3_point(inputs, &s, (i, j, k), c);
                            proof {
                                lemma_layout3(nd as int, ho as int, wo as int, nc as int, i as int, j as int, k as int, c as int);
                                lemma_fe_of(v);
                                let q = ((i * ho + j) * wo + k) * nc + c;
                                assert(out[q] == v);
                            }
                            data.push(v);
                            c = c + 1;
                            proof {
                                assert(data@ =~= out.take(((i * ho + j) * wo + k) * nc + c));
                            }
                        }
                        k = k + 1;
                        proof {
                            assert(((i * ho + j) * wo + (k - 1)) * nc + nc == ((i * ho + j) * wo + k) * nc)
                                by (nonlinear_arith);
                        }
                    }
                    j = j + 1;
                    proof {
                        assert(((i * ho + (j - 1)) * wo + wo) * nc == ((i * ho + j) * wo + 0) * nc) by (nonlinear_arith);
                    }
                }
                i = i + 1;
                proof {
                    assert((((i - 1) * ho + ho) * wo + 0) * nc == ((i * ho + 0) * wo + 0) * nc) by (nonlinear_arith);
                }
            }
            proof {
                assert(((nd * ho + 0) * wo + 0) * nc == (nd * ho * wo) * nc) by (nonlinear_arith);
                assert(data@ =~= out);
            }
        } else {
            let total = n * nc;
            let mut q: usize = 0;
            while q < total
                invariant
                    out == conv3_out(inputs@, s),
                    !(conv3_do(s) > 0 && conv2_ho(s) > 0 && conv2_wo(s) > 0),
                    total == out.len(),
                    zero == fe_of(0),
                    q <= total,
                    data@ == out.take(q as int),
                decreases total - q,
            {
                data.push(zero);
                q = q + 1;
                proof {
                    assert(data@ =~= out.take(q as int));
                }
            }
            proof {
                assert(data@ =~= out);
            }
        }
        let padded = pad_conv_output(data, n, nc, zero);
        let mut v: Vec<Tensor<Fe>> = Vec::new();
        v.push(padded);
        Ok(v)
    }
}

} // verus!

verus! {

/// The length of an output dimension of a transposed convolution:
/// `(n - 1) * s - p1 - p2 + (k - 1) + 1`.
pub open spec fn out_len_t(n: int, k: int, p1: int, p2: int, s: int) -> int {
    (n - 1) * s - p1 - p2 + (k - 1) + 1
}

/// The length of an output dimension of a transposed convolution can be
/// computed in `i32`.
pub open spec fn out_len_t_fits(n: int, k: int, p1: int, p2: int, s: int) -> bool {
    &&& in_i32(n - 1)
    &&& in_i32((n - 1) * s)
    &&& in_i32((n - 1) * s - p1)
    &&& in_i32((n - 1) * s - p1 - p2)
    &&& in_i32(k - 1)
    &&& in_i32((n - 1) * s - p1 - p2 + (k - 1))
    &&& in_i32(out_len_t(n, k, p1, p2, s))
}

/// The depth, height and width of the output of a transposed 3D convolution.
pub open spec fn conv3t_dims(s: ConvShapeHelper) -> (int, int, int) {
    (
        out_len_t(s.d->0 as int, s.k_d->0 as int, s.p_d_front->0 as int, s.p_d_back->0 as int, s.s_d->0 as int),
        out_len_t(s.h as int, s.k_h as int, s.p_h_top as int, s.p_h_bottom as int, s.s_h as int),
        out_len_t(s.w as int, s.k_w as int, s.p_w_left as int, s.p_w_right as int, s.s_w as int),
    )
}

/// The input position that output position `o` copies: `o / stride`, and
/// the kernel offset it comes from: `o % stride`.
pub open spec fn conv3t_src(s: ConvShapeHelper, o: (int, int, int)) -> ((int, int, int), (int, int, int)) {
    (
        (o.0 / (s.s_d->0 as int), o.1 / (s.s_h as int), o.2 / (s.s_w as int)),
        (o.0 % (s.s_d->0 as int), o.1 % (s.s_h as int), o.2 % (s.s_w as int)),
    )
}

/// The element of a transposed 3D convolution's output at position `o`,
/// channel `c`: the input element it copies, or zero if its source lies
/// outside the input.
pub open spec fn conv3t_value(inputs: Seq<Tensor<Fe>>, s: ConvShapeHelper, o: (int, int, int), c: int) -> Fe {
    let (p, kxyz) = conv3t_src(s, o);
    if conv3_inside(s, p) {
        let t = inputs[kernel_index3(s, kxyz.0, kxyz.1, kxyz.2)];
        t.data@[row3(s, p) * t.shape@[2] + c]
    } else {
        fe_of(0)
    }
}

/// The element at row-major position `q` of the transposed convolution's
/// output before padding.
pub open spec fn conv3t_at(inputs: Seq<Tensor<Fe>>, s: ConvShapeHelper, q: int) -> Fe {
    let dims = conv3t_dims(s);
    let nc = s.out_channels as int;
    if dims.0 > 0 && dims.1 > 0 && dims.2 > 0 {
        conv3t_value(inputs, s, unrow3(q / nc, dims.1, dims.2), q % nc)
    } else {
        fe_of(0)
    }
}

/// The `[1, D_out * H_out * W_out, C_out]` output of a transposed 3D
/// convolution before padding.
pub open spec fn conv3t_out(inputs: Seq<Tensor<Fe>>, s: ConvShapeHelper) -> Seq<Fe> {
    let dims = conv3t_dims(s);
    Seq::new(((dims.0 * dims.1 * dims.2) as nat) * (s.out_channels as nat), |q: int| conv3t_at(inputs, s, q))
}

/// The kernel index of output position `o` can be computed in `i32`, and the
/// input it reads, if its source lies inside, exists and holds that
/// position in every output channel.
pub open spec fn conv3t_read_ok(inputs: Seq<Tensor<Fe>>, s: ConvShapeHelper, o: (int, int, int)) -> bool {
    let (p, kxyz) = conv3t_src(s, o);
    &&& kernel_index3_fits(s, kxyz.0, kxyz.1, kxyz.2)
    &&& conv3_inside(s, p) ==> {
        let idx = kernel_index3(s, kxyz.0, kxyz.1, kxyz.2);
        &&& 0 <= idx < inputs.len()
        &&& inputs[idx].wf()
        &&& inputs[idx].shape@.len() == 3
        &&& inputs[idx].shape@[0] >= 1
        &&& row3(s, p) < inputs[idx].shape@[1]
        &&& s.out_channels <= inputs[idx].shape@[2]
    }
}

/// The inputs a transposed 3D convolution accepts: a kernel as large as the
/// stride and no padding (the only case handled), every number of the
/// index computation in `i32`, every read inside its input, and padded
/// output sizes that fit in a `usize`.
pub open spec fn conv3t_accepts(s: ConvShapeHelper, inputs: Seq<Tensor<Fe>>) -> bool {
    let dims = conv3t_dims(s);
    &&& s.d is Some && s.k_d is Some && s.s_d is Some && s.p_d_front is Some && s.p_d_back is Some
    &&& s.k_d == s.s_d && s.k_h == s.s_h && s.k_w == s.s_w
    &&& s.p_d_front == Some(0i32) && s.p_h_top == 0 && s.p_w_left == 0
    &&& s.p_d_back == Some(0i32) && s.p_h_bottom == 0 && s.p_w_right == 0
    &&& s.s_d->0 != 0 && s.s_h != 0 && s.s_w != 0
    &&& out_len_t_fits(s.d->0 as int, s.k_d->0 as int, 0, 0, s.s_d->0 as int)
    &&& out_len_t_fits(s.h as int, s.k_h as int, 0, 0, s.s_h as int)
    &&& out_len_t_fits(s.w as int, s.k_w as int, 0, 0, s.s_w as int)
    &&& in_i32(dims.0 * dims.1)
    &&& in_i32(dims.0 * dims.1 * dims.2)
    &&& dims.0 * dims.1 * dims.2 >= 0
    &&& forall|i: int, j: int, k: int|
        0 <= i < dims.0 && 0 <= j < dims.1 && 0 <= k < dims.2 ==> #[trigger] conv3t_read_ok(inputs, s, (i, j, k))
    &&& (dims.0 * dims.1 * dims.2) * s.out_channels <= usize::MAX
    &&& forall|d: int|
        0 <= d < 3 ==> next_pow_spec(#[trigger] conv_out_shape(dims.0 * dims.1 * dims.2, s.out_channels)[d] as nat)
            <= usize::MAX
    &&& suffix_sizes_fit(pow2_shape(conv_out_shape(dims.0 * dims.1 * dims.2, s.out_channels)))
}

/// Dividing a non-negative number by a non-zero one gives a quotient no
/// larger in size than the number.
proof fn lemma_div_small(a: int, b: int)
    requires
        a >= 0,
        b != 0,
    ensures
        -a <= a / b <= a,
        0 <= a % b < if b > 0 { b } else { -b },
{
    vstd::arithmetic::div_mod::lemma_fundamental_div_mod(a, b);
    let q = a / b;
    let r = a % b;
    if b > 0 {
        assert(-a <= q <= a) by (nonlinear_arith)
            requires
                a == b * q + r,
                0 <= r < b,
                a >= 0,
        ;
    } else {
        assert(-a <= q <= a) by (nonlinear_arith)
            requires
                a == b * q + r,
                0 <= r < -b,
                a >= 0,
        ;
    }
}

/// The element of a transposed 3D convolution's output at position `o`,
/// channel `c`.
fn conv3t_point(inputs: &Vec<Tensor<Fe>>, s: &ConvShapeHelper, o: (i64, i64, i64), c: usize, zero: Fe) -> (r: Fe)
    requires
        conv3t_accepts(*s, inputs@),
        0 <= o.0 < conv3t_dims(*s).0,
        0 <= o.1 < conv3t_dims(*s).1,
        0 <= o.2 < conv3t_dims(*s).2,
        c < s.out_channels,
        zero == fe_of(0),
    ensures
        r == conv3t_value(inputs@, *s, (o.0 as int, o.1 as int, o.2 as int), c as int),
{
    let ghost og = (o.0 as int, o.1 as int, o.2 as int);
    assert(conv3t_read_ok(inputs@, *s, og));
    let sd = s.s_d.unwrap() as i64;
    let sh = s.s_h as i64;
    let sw = s.s_w as i64;
    let kh = s.k_h as i64;
    let kw = s.k_w as i64;
    let xin = o.0 / sd;
    let yin = o.1 / sh;
    let zin = o.2 / sw;
    let x = o.0 % sd;
    let y = o.1 % sh;
    let z = o.2 % sw;
    proof {
        lemma_div_small(o.0 as int, sd as int);
        lemma_div_small(o.1 as int, sh as int);
        lemma_div_small(o.2 as int, sw as int);
    }
    assert(conv3t_src(*s, og) == ((xin as int, yin as int, zin as int), (x as int, y as int, z as int)));
    if xin >= 0 && xin < s.d.unwrap() as i64 && yin >= 0 && yin < s.h as i64 && zin >= 0 && zin < s.w as i64 {
        let idx = (x * kh * kw + y * kw + z) as usize;
        let ghost rw = row3(*s, (xin as int, yin as int, zin as int));
        proof {
            assert(0 <= (xin as int) * (s.h as int) * (s.w as int) <= rw) by (nonlinear_arith)
                requires
                    rw == (xin as int) * (s.h as int) * (s.w as int) + (yin as int) * (s.w as int) + zin,
                    0 <= xin,
                    0 <= yin,
                    0 <= zin,
                    0 < s.h,
                    0 < s.w,
            ;
            assert(0 <= (xin as int) * (s.h as int) <= (xin as int) * (s.h as int) * (s.w as int)) by (nonlinear_arith)
                requires
                    0 <= xin,
                    0 < s.h,
                    0 < s.w,
            ;
            assert(0 <= (yin as int) * (s.w as int) <= rw) by (nonlinear_arith)
                requires
                    rw == (xin as int) * (s.h as int) * (s.w as int) + (yin as int) * (s.w as int) + zin,
                    0 <= xin,
                    0 <= yin,
                    0 <= zin,
                    0 < s.h,
                    0 < s.w,
            ;
        }
        let row = (xin as usize) * (s.h as usize) * (s.w as usize) + (yin as usize) * (s.w as usize) + (zin as usize);
        read_at(inputs, idx, row, c)
    } else {
        zero
    }
}

impl Conv3DTransposeBasicBlock {
    /// The sizes of this convolution.
    pub open spec fn shape(&self) -> ConvShapeHelper {
        shape_3d(self.input_shape@, self.kernel_shape@, self.stride@, self.padding@, self.out_channels)
    }

    /// The inputs `run` accepts.
    pub open spec fn accepts(&self, inputs: Seq<Tensor<Fe>>) -> bool {
        &&& self.input_shape@.len() >= 3
        &&& self.kernel_shape@.len() >= 3
        &&& self.stride@.len() >= 3
        &&& self.padding@.len() >= 6
        &&& conv3t_accepts(self.shape(), inputs)
    }

    pub fn run(&self, _model: &Tensor<Fe>, inputs: &Vec<Tensor<Fe>>) -> (r: Result<Vec<Tensor<Fe>>, CQOutOfRangeError>)
        requires
            self.accepts(inputs@),
        ensures
            ({
                let s = self.shape();
                let dims = conv3t_dims(s);
                let os = conv_out_shape(dims.0 * dims.1 * dims.2, s.out_channels);
                r matches Ok(v) && v@.len() == 1 && v@[0].wf() && v@[0].shape@ == pow2_shape(os) && v@[0].data@
                    == resized(conv3t_out(inputs@, s), os, pow2_shape(os), fe_of(0))
            }),
    {
        let s = ConvShapeHelper::from_conv3d_transpose(self);
        let nd: i64 = (s.d.unwrap() as i64 - 1) * (s.s_d.unwrap() as i64) - (s.p_d_front.unwrap() as i64) - (
        s.p_d_back.unwrap() as i64) + (s.k_d.unwrap() as i64 - 1) + 1;
        let ho: i64 = (s.h as i64 - 1) * (s.s_h as i64) - (s.p_h_top as i64) - (s.p_h_bottom as i64) + (s.k_h as i64 - 1)
            + 1;
        let wo: i64 = (s.w as i64 - 1) * (s.s_w as i64) - (s.p_w_left as i64) - (s.p_w_right as i64) + (s.k_w as i64
            - 1) + 1;
        assert(conv3t_dims(s) == (nd as int, ho as int, wo as int));
        let n = (nd * ho * wo) as usize;
        let nc = s.out_channels;
        let ghost out = conv3t_out(inputs@, s);
        assert(n == nd * ho * wo);
        let zero = Fe::zero();
        proof {
            lemma_fe_of(zero);
        }
        let mut data: Vec<Fe> = Vec::new();
        if nd > 0 && ho > 0 && wo > 0 {
            let mut i: i64 = 0;
            proof {
                assert(((0 * ho + 0) * wo + 0) * nc == 0) by (nonlinear_arith);
            }
            while i < nd
                invariant
                    conv3t_accepts(s, inputs@),
                    s == self.shape(),
                    out == conv3t_out(inputs@, s),
                    conv3t_dims(s) == (nd as int, ho as int, wo as int),
                    nc == s.out_channels,
                    zero == fe_of(0),
                    ho > 0,
                    wo > 0,
                    0 <= i <= nd,
                    data@ == out.take(((i * ho + 0) * wo + 0) * nc),
                decreases nd - i,
            {
                let mut j: i64 = 0;
                while j < ho
                    invariant
                        conv3t_accepts(s, inputs@),
                        s == self.shape(),
                        out == conv3t_out(inputs@, s),
                        conv3t_dims(s) == (nd as int, ho as int, wo as int),
                        nc == s.out_channels,
                        zero == fe_of(0),
                        wo > 0,
                        0 <= i < nd,
                        0 <= j <= ho,
                        data@ == out.take(((i * ho + j) * wo + 0) * nc),
                    decreases ho - j,
                {
                    let mut k: i64 = 0;
                    while k < wo
                        invariant
                            conv3t_accepts(s, inputs@),
                            s == self.shape(),
                            out == conv3t_out(inputs@, s),
                            conv3t_dims(s) == (nd as int, ho as int, wo as int),
                            nc == s.out_channels,
                            zero == fe_of(0),
                            0 <= i < nd,
                            0 <= j < ho,
                            0 <= k <= wo,
                            data@ == out.take(((i * ho + j) * wo + k) * nc),
                        decreases wo - k,
                    {
                        let mut c: usize = 0;
                        while c < nc
                            invariant
                                conv3t_accepts(s, inputs@),
                                s == self.shape(),
                                out == conv3t_out(inputs@, s),
                                conv3t_dims(s) == (nd as int, ho as int, wo as int),
                                nc == s.out_channels,
                                zero == fe_of(0),
                                0 <= i < nd,
                                0 <= j < ho,
                                0 <= k < wo,
                                c <= nc,
                                data@ == out.take(((i * ho + j) * wo + k) * nc + c),
                            decreases nc - c,
                        {
                            let v = conv3t_point(inputs, &s, (i, j, k), c, zero);
                            proof {
                                lemma_layout3(nd as int, ho as int, wo as int, nc as int, i as int, j as int, k as int, c as int);
                                let q = ((i * ho + j) * wo + k) * nc + c;
                                assert(out[q] == v);
                            }
                            data.push(v);
                            c = c + 1;
                            proof {
                                assert(data@ =~= out.take(((i * ho + j) * wo + k) * nc + c));
                            }
                        }
                        k = k + 1;
                        proof {
                            assert(((i * ho + j) * wo + (k - 1)) * nc + nc == ((i * ho + j) * wo + k) * nc)
                                by (nonlinear_arith);
                        }
                    }
                    j = j + 1;
                    proof {
                        assert(((i * ho + (j - 1)) * wo + wo) * nc == ((i * ho + j) * wo + 0) * nc) by (nonlinear_arith);
                    }
                }
                i = i + 1;
                proof {
                    assert((((i - 1) * ho + ho) * wo + 0) * nc == ((i * ho + 0) * wo + 0) * nc) by (nonlinear_arith);
                }
            }
            proof {
                assert(((nd * ho + 0) * wo + 0) * nc == (nd * ho * wo) * nc) by (nonlinear_arith);
                assert(data@ =~= out);
            }
        } else {
            let total = n * nc;
            let mut q: usize = 0;
            while q < total
                invariant
                    out == conv3t_out(inputs@, s),
                    !(conv3t_dims(s).0 > 0 && conv3t_dims(s).1 > 0 && conv3t_dims(s).2 > 0),
                    total == out.len(),
                    zero == fe_of(0),
                    q <= total,
                    data@ == out.take(q as int),
                decreases total - q,
            {
                data.push(zero);
                q = q + 1;
                proof {
                    assert(data@ =~= out.take(q as int));
                }
            }
            proof {
                assert(data@ =~= out);
            }
        }
        let padded = pad_conv_output(data, n, nc, zero);
        let mut v: Vec<Tensor<Fe>> = Vec::new();
        v.push(padded);
        Ok(v)
    }
}

} // verus!

verus! {

/// Joins the outputs of several convolution heads along axis 1: each input
/// is cut down to `input_shape` (`[1, H_out * W_out, head_dim]`), they are
/// placed one after another along axis 1, and the result is padded with
/// zeros to powers of two.
#[derive(Debug)]
pub struct MultiHeadConv2dAggBasicBlock {
    pub input_shape: Vec<usize>,
}

/// `n` copies of a shape.
pub open spec fn same_shapes(s: Seq<usize>, n: nat) -> Seq<Seq<usize>> {
    Seq::new(n, |_h: int| s)
}

/// The elements of each input cut down to `shape`.
pub open spec fn heads_cut(inputs: Seq<Tensor<Fe>>, shape: Seq<usize>) -> Seq<Seq<Fe>> {
    Seq::new(inputs.len(), |h: int| resized(inputs[h].data@, inputs[h].shape@, shape, fe_of(0)))
}

/// The shape of the heads joined along axis 1, before padding.
pub open spec fn heads_shape(shape: Seq<usize>, n: nat) -> Seq<usize> {
    shape.update(1, (shape[1] * n) as usize)
}

/// The inputs the join accepts: each input holds `input_shape`, and the
/// joined and padded shapes have sizes that fit in a `usize`.
pub open spec fn heads_accept(shape: Seq<usize>, inputs: Seq<Tensor<Fe>>) -> bool {
    let n = inputs.len();
    &&& shape.len() >= 2
    &&& shape[1] * n <= usize::MAX
    &&& forall|h: int|
        0 <= h < n ==> {
            &&& (#[trigger] inputs[h]).wf()
            &&& suffix_sizes_fit(inputs[h].shape@)
            &&& inputs[h].shape@.len() == shape.len()
            &&& forall|d: int| 0 <= d < shape.len() ==> shape[d] <= inputs[h].shape@[d]
        }
    &&& suffix_sizes_fit(shape)
    &&& shape_size(shape.take(1)) <= usize::MAX
    &&& suffix_sizes_fit(heads_shape(shape, n))
    &&& forall|d: int| 0 <= d < shape.len() ==> next_pow_spec(#[trigger] heads_shape(shape, n)[d] as nat) <= usize::MAX
    &&& suffix_sizes_fit(pow2_shape(heads_shape(shape, n)))
}

proof fn lemma_heads_joinable(shape: Seq<usize>, n: nat)
    requires
        n >= 1,
        shape.len() >= 2,
        shape[1] * n <= usize::MAX,
        suffix_sizes_fit(shape),
        shape_size(shape.take(1)) <= usize::MAX,
        suffix_sizes_fit(heads_shape(shape, n)),
    ensures
        joinable(same_shapes(shape, n), 1),
        concat_shape(same_shapes(shape, n), 1) == heads_shape(shape, n),
{
    let sh = same_shapes(shape, n);
    lemma_axis_sum_same(shape, n, n);
    assert(shape.take(0) =~= Seq::<usize>::empty());
    assert forall|j: int| 0 <= j <= 1 implies #[trigger] shape_size(sh[0].take(j)) <= usize::MAX by {
        if j == 0 {
            assert(sh[0].take(0) =~= Seq::<usize>::empty());
        }
    }
    assert(concat_shape(sh, 1) =~= heads_shape(shape, n));
}

proof fn lemma_axis_sum_same(shape: Seq<usize>, n: nat, k: nat)
    requires
        k <= n,
        shape.len() >= 2,
    ensures
        axis_sum(same_shapes(shape, n), 1, k) == shape[1] * k,
    decreases k,
{
    if k > 0 {
        lemma_axis_sum_same(shape, n, (k - 1) as nat);
        assert(shape[1] * (k - 1) + shape[1] == shape[1] * k) by (nonlinear_arith);
        assert(same_shapes(shape, n)[k - 1] == shape);
    } else {
        assert(shape[1] * 0 == 0) by (nonlinear_arith);
    }
}

impl MultiHeadConv2dAggBasicBlock {
    pub fn run(&self, _model: &Tensor<Fe>, inputs: &Vec<Tensor<Fe>>) -> (r: Result<Vec<Tensor<Fe>>, CQOutOfRangeError>)
        requires
            heads_accept(self.input_shape@, inputs@),
        ensures
            ({
                let hs = heads_shape(self.input_shape@, inputs@.len());
                r matches Ok(v) && v@.len() == 1 && v@[0].wf() && v@[0].shape@ == pow2_shape(hs) && v@[0].data@
                    == resized(
                    joined(
                        heads_cut(inputs@, self.input_shape@),
                        axis_blocks(same_shapes(self.input_shape@, inputs@.len()), 1),
                        shape_size(self.input_shape@.take(1)),
                    ),
                    hs,
                    pow2_shape(hs),
                    fe_of(0),
                )
            }),
    {
        let n = inputs.len();
        let zero = Fe::zero();
        proof {
            lemma_fe_of(zero);
        }
        let ghost sh = same_shapes(self.input_shape@, n as nat);
        let mut cut: Vec<Tensor<Fe>> = Vec::new();
        let mut h: usize = 0;
        while h < n
            invariant
                heads_accept(self.input_shape@, inputs@),
                sh == same_shapes(self.input_shape@, n as nat),
                n == inputs.len(),
                zero == fe_of(0),
                h <= n,
                cut@.len() == h,
                forall|k: int|
                    0 <= k < h ==> (#[trigger] cut@[k]).wf() && cut@[k].shape@ == self.input_shape@ && cut@[k].data@
                        == heads_cut(inputs@, self.input_shape@)[k],
            decreases n - h,
        {
            assert(inputs@[h as int].wf());
            let c = resize(&inputs[h], &self.input_shape, zero);
            cut.push(c);
            h = h + 1;
        }
        let joined_t = if n > 0 {
            proof {
                lemma_heads_joinable(self.input_shape@, n as nat);
                assert(shapes_of(cut@) =~= sh);
                assert(tensor_parts(cut@) =~= heads_cut(inputs@, self.input_shape@));
                assert(sh[0] == cut@[0].shape@);
            }
            concat_tensors(&cut, 1)
        } else {
            let mut shape = self.input_shape.clone();
            shape.set(1, 0);
            proof {
                let hs = heads_shape(self.input_shape@, 0);
                assert(shape@ =~= hs);
                crate::tensor::lemma_size_split(hs, 1);
                crate::tensor::lemma_skip_size(hs, 1);
                assert(hs[1] == 0);
                let a = shape_size(hs.take(1));
                let b = shape_size(hs.skip(2));
                assert(shape_size(hs.skip(1)) == 0) by {
                    assert((hs[1] as nat) * b == 0) by (nonlinear_arith)
                        requires
                            hs[1] == 0,
                    ;
                }
                assert(a * 0 == 0) by (nonlinear_arith);
                assert(shape_size(hs) == 0);
                assert(heads_cut(inputs@, self.input_shape@) =~= Seq::<Seq<Fe>>::empty());
                lemma_joined_empty(axis_blocks(same_shapes(self.input_shape@, 0), 1), shape_size(self.input_shape@.take(1)));
            }
            Tensor { shape, data: Vec::new() }
        };
        let padded = pad_to_pow_of_two(&joined_t, zero);
        let mut v: Vec<Tensor<Fe>> = Vec::new();
        v.push(padded);
        Ok(v)
    }
}

/// Joining no parts gives nothing.
proof fn lemma_joined_empty(blocks: Seq<nat>, k: nat)
    ensures
        joined(Seq::<Seq<Fe>>::empty(), blocks, k) == Seq::<Fe>::empty(),
    decreases k,
{
    if k > 0 {
        lemma_joined_empty(blocks, (k - 1) as nat);
        assert(joined_row(Seq::<Seq<Fe>>::empty(), blocks, (k - 1) as nat, 0) =~= Seq::<Fe>::empty());
        assert(joined(Seq::<Seq<Fe>>::empty(), blocks, k) =~= Seq::<Fe>::empty());
    }
}

} // verus!
