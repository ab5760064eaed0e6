//! What the convolution additions compute, stated from the input positions
//! they read: output position `(i, j)` with kernel offset `(x, y)` reads
//! the input at `(i * stride_h + x - pad_top, j * stride_w + y - pad_left)`.
use super::new_conv::{
    conv2_accepts, conv2_at, conv2_cols, conv2_ho, conv2_in, conv2_read_ok, conv2_term, conv2_value, conv2_wo, count, lemma_layout,
    lemma_size3, ConvShapeHelper, conv3_accepts, conv3_at, conv3_do, conv3_in, conv3_read_ok, conv3_term, conv3_value,
    conv3_y, conv3_z, conv3t_at, conv3t_dims, kernel_index3, lemma_layout3, row3,
};
use super::conv_check::{
    conv2_commit_cols, conv2_commit_ok, conv2_commit_sum, conv3_commit_ok, conv3_commit_sum, conv3_commit_y, conv3_commit_z,
    conv3t_commit_ok,
};
use vstd::arithmetic::div_mod::lemma_fundamental_div_mod_converse;
use super::data::{enc_point, DataEnc};
use crate::curve::{g1_add, g1_same_point, g1_zero_view};
use crate::field::{fadd, modulus, Fe};
use crate::tensor::Tensor;
use vstd::arithmetic::div_mod::lemma_small_mod;
use vstd::prelude::*;

verus! {

/// Whether the tensor for kernel offset `(x, y)` is all zeros.
pub open spec fn offset_zero(inputs: Seq<Tensor<Fe>>, s: ConvShapeHelper, x: int, y: int) -> bool {
    let t = inputs[x * s.k_w + y];
    forall|k: int| 0 <= k < t.data@.len() ==> #[trigger] t.data@[k]@ == 0
}

/// What output position `(i, j)` in channel `c` holds when only kernel
/// offset `(tx, ty)` carries data: the element of that offset's tensor at
/// input position `(i * s_h + tx - top, j * s_w + ty - left)`, or zero
/// where that lies outside the input.
pub open spec fn strided_read(inputs: Seq<Tensor<Fe>>, s: ConvShapeHelper, i: int, j: int, c: int, tx: int, ty: int) -> nat {
    let xi = i * (s.s_h as int) + tx - (s.p_h_top as int);
    let yi = j * (s.s_w as int) + ty - (s.p_w_left as int);
    if 0 <= xi < s.h && 0 <= yi < s.w {
        let t = inputs[tx * s.k_w + ty];
        t.data@[(xi * s.w + yi) * t.shape@[2] + c]@ % modulus()
    } else {
        0
    }
}

/// The hypotheses shared by the lemmas below.
pub open spec fn single_offset(inputs: Seq<Tensor<Fe>>, s: ConvShapeHelper, i: int, j: int, c: int, tx: int, ty: int) -> bool {
    &&& conv2_accepts(s, inputs)
    &&& 0 <= i < conv2_ho(s)
    &&& 0 <= j < conv2_wo(s)
    &&& 0 <= c < s.out_channels
    &&& 0 <= tx < s.k_h
    &&& 0 <= ty < s.k_w
    &&& forall|x: int, y: int|
        0 <= x < s.k_h && 0 <= y < s.k_w && !(x == tx && y == ty) && 0 <= x * s.k_w + y < inputs.len()
            ==> #[trigger] offset_zero(inputs, s, x, y)
}

/// A term read from an all-zero tensor is zero.
proof fn lemma_zero_term(inputs: Seq<Tensor<Fe>>, s: ConvShapeHelper, i: int, j: int, c: int, tx: int, ty: int, x: int, y: int)
    requires
        single_offset(inputs, s, i, j, c, tx, ty),
        0 <= x < s.k_h,
        0 <= y < s.k_w,
        !(x == tx && y == ty),
    ensures
        conv2_term(inputs, s, i, j, x, y, c) matches Some(v) ==> v == 0,
{
    assert(conv2_read_ok(inputs, s, i, j, x, y));
    if conv2_term(inputs, s, i, j, x, y, c) is Some {
        let idx = x * s.k_w + y;
        let t = inputs[idx];
        let p = conv2_in(s, i, j, x, y);
        let pos = p.0 * s.w + p.1;
        lemma_size3(t.shape@);
        assert(pos * t.shape@[2] + c < t.shape@[0] * t.shape@[1] * t.shape@[2]) by (nonlinear_arith)
            requires
                0 <= pos < t.shape@[1],
                0 <= c < t.shape@[2],
                t.shape@[0] >= 1,
        ;
        assert(0 <= pos * t.shape@[2] + c) by (nonlinear_arith)
            requires
                0 <= pos,
                0 <= c,
                t.shape@[2] >= 0,
        ;
        assert(offset_zero(inputs, s, x, y));
    }
}

/// Adding zero leaves a reduced value unchanged.
proof fn lemma_add_zero(b: nat)
    requires
        b < modulus(),
    ensures
        fadd(b, 0) == b,
{
    lemma_small_mod(b, modulus());
}

/// One kernel row, from a reduced `base`: the single carrying offset adds
/// its element, every other offset adds nothing.
proof fn lemma_cols(
    inputs: Seq<Tensor<Fe>>,
    s: ConvShapeHelper,
    i: int,
    j: int,
    c: int,
    tx: int,
    ty: int,
    x: int,
    ny: nat,
    base: nat,
)
    requires
        single_offset(inputs, s, i, j, c, tx, ty),
        0 <= x < s.k_h,
        ny <= s.k_w,
        base < modulus(),
        x == tx ==> base == 0,
    ensures
        conv2_cols(inputs, s, i, j, c, x, ny, base) == if x == tx && ty < ny {
            strided_read(inputs, s, i, j, c, tx, ty)
        } else {
            base
        },
    decreases ny,
{
    if ny > 0 {
        let y = ny - 1;
        lemma_cols(inputs, s, i, j, c, tx, ty, x, (ny - 1) as nat, base);
        let prev = conv2_cols(inputs, s, i, j, c, x, (ny - 1) as nat, base);
        let w = strided_read(inputs, s, i, j, c, tx, ty);
        assert(w < modulus()) by {
            assert(modulus() > 0);
        }
        if x == tx && y == ty {
            assert(prev == 0);
            match conv2_term(inputs, s, i, j, x, y, c) {
                Some(v) => {
                    assert(fadd(0, v) == v % modulus());
                },
                None => {},
            }
        } else {
            lemma_zero_term(inputs, s, i, j, c, tx, ty, x, y);
            assert(prev < modulus());
            lemma_add_zero(prev);
        }
    }
}

/// The kernel rows `0 .. nx`: only the carrying row adds anything.
proof fn lemma_rows(inputs: Seq<Tensor<Fe>>, s: ConvShapeHelper, i: int, j: int, c: int, tx: int, ty: int, nx: nat)
    requires
        single_offset(inputs, s, i, j, c, tx, ty),
        nx <= s.k_h,
    ensures
        conv2_value(inputs, s, i, j, c, nx) == if tx < nx {
            strided_read(inputs, s, i, j, c, tx, ty)
        } else {
            0
        },
    decreases nx,
{
    if nx > 0 {
        lemma_rows(inputs, s, i, j, c, tx, ty, (nx - 1) as nat);
        let prev = conv2_value(inputs, s, i, j, c, (nx - 1) as nat);
        assert(strided_read(inputs, s, i, j, c, tx, ty) < modulus());
        assert(count(s.k_w as int) == s.k_w);
        lemma_cols(inputs, s, i, j, c, tx, ty, nx - 1, count(s.k_w as int), prev);
    }
}

/// A 2D convolution addition in which only the tensor of kernel offset
/// `(tx, ty)` is non-zero holds, at output position `(i, j)` and channel
/// `c` (row-major element `(i * W_out + j) * C_out + c` of the output that
/// `Conv2DAddBasicBlock::run` returns before padding), that tensor's
/// element at input position `(i * s_h + tx - top, j * s_w + ty - left)`
/// (zero where that lies in the padding). With a `1 x 1` kernel and no
/// padding this says that output `(i, j)` is input `(s_h * i, s_w * j)`.
pub proof fn law_conv2_reads_strided(
    inputs: Seq<Tensor<Fe>>,
    s: ConvShapeHelper,
    i: int,
    j: int,
    c: int,
    tx: int,
    ty: int,
)
    requires
        single_offset(inputs, s, i, j, c, tx, ty),
    ensures
        conv2_at(inputs, s, (i * conv2_wo(s) + j) * s.out_channels + c) == strided_read(inputs, s, i, j, c, tx, ty),
{
    lemma_layout(conv2_ho(s), conv2_wo(s), s.out_channels as int, i, j, c);
    lemma_rows(inputs, s, i, j, c, tx, ty, count(s.k_h as int));
}

/// The verifier's check of a 2D convolution addition with a `1 x 1` kernel
/// accepts output position `(i, j)` exactly when its commitment is the
/// point of the input commitment at position `(i * s_h - top, j * s_w -
/// left)` (added to the identity), or the identity where that lies in the
/// padding.
pub proof fn law_conv2_check_reads_strided(
    inputs: Seq<Tensor<DataEnc>>,
    output: Tensor<DataEnc>,
    s: ConvShapeHelper,
    i: int,
    j: int,
)
    requires
        s.k_h == 1,
        s.k_w == 1,
    ensures
        ({
            let xi = i * (s.s_h as int) - (s.p_h_top as int);
            let yi = j * (s.s_w as int) - (s.p_w_left as int);
            let want = if 0 <= xi < s.h && 0 <= yi < s.w {
                g1_add(g1_zero_view(), enc_point(inputs[0].data@[xi * s.w + yi]))
            } else {
                g1_zero_view()
            };
            conv2_commit_ok(inputs, output, s, i, j) == g1_same_point(want, enc_point(output.data@[i * conv2_wo(s) + j]))
        }),
{
    assert(count(1) == 1);
    let z = g1_zero_view();
    assert(conv2_commit_sum(inputs, s, i, j, 0) == z);
    assert(0 * s.k_w + 0 == 0);
    assert(conv2_commit_cols(inputs, s, i, j, 0, 0, z) == z);
    assert(conv2_commit_sum(inputs, s, i, j, 1) == conv2_commit_cols(inputs, s, i, j, 0, 1, z));
    assert(i * s.s_h + 0 - s.p_h_top == i * (s.s_h as int) - (s.p_h_top as int));
}

/// Whether the tensor for 3D kernel offset `(x, y, z)` is all zeros.
pub open spec fn offset3_zero(inputs: Seq<Tensor<Fe>>, s: ConvShapeHelper, x: int, y: int, z: int) -> bool {
    let t = inputs[x * s.k_h * s.k_w + y * s.k_w + z];
    forall|k: int| 0 <= k < t.data@.len() ==> #[trigger] t.data@[k]@ == 0
}

/// What output position `(i, j, k)` in channel `c` holds when only 3D
/// kernel offset `(tx, ty, tz)` carries data: that offset's element at
/// input position `(i * s_d + tx - front, j * s_h + ty - top, k * s_w + tz
/// - left)` (row `d_in * H * W + h_in * W + w_in`), or zero in the padding.
pub open spec fn strided_read3(
    inputs: Seq<Tensor<Fe>>,
    s: ConvShapeHelper,
    o: (int, int, int),
    c: int,
    t: (int, int, int),
) -> nat {
    let di = o.0 * (s.s_d->0 as int) + t.0 - (s.p_d_front->0 as int);
    let hi = o.1 * (s.s_h as int) + t.1 - (s.p_h_top as int);
    let wi = o.2 * (s.s_w as int) + t.2 - (s.p_w_left as int);
    if 0 <= di < s.d->0 && 0 <= hi < s.h && 0 <= wi < s.w {
        let x = inputs[t.0 * s.k_h * s.k_w + t.1 * s.k_w + t.2];
        x.data@[(di * s.h * s.w + hi * s.w + wi) * x.shape@[2] + c]@ % modulus()
    } else {
        0
    }
}

/// The hypotheses of the 3D lemmas below.
pub open spec fn single_offset3(inputs: Seq<Tensor<Fe>>, s: ConvShapeHelper, o: (int, int, int), c: int, t: (int, int, int)) -> bool {
    &&& conv3_accepts(s, inputs)
    &&& 0 <= o.0 < conv3_do(s)
    &&& 0 <= o.1 < conv2_ho(s)
    &&& 0 <= o.2 < conv2_wo(s)
    &&& 0 <= c < s.out_channels
    &&& 0 <= t.0 < s.k_d->0
    &&& 0 <= t.1 < s.k_h
    &&& 0 <= t.2 < s.k_w
    &&& forall|x: int, y: int, z: int|
        0 <= x < s.k_d->0 && 0 <= y < s.k_h && 0 <= z < s.k_w && !(x == t.0 && y == t.1 && z == t.2) && 0
            <= x * s.k_h * s.k_w + y * s.k_w + z < inputs.len() ==> #[trigger] offset3_zero(inputs, s, x, y, z)
}

proof fn lemma_zero_term3(
    inputs: Seq<Tensor<Fe>>,
    s: ConvShapeHelper,
    o: (int, int, int),
    c: int,
    t: (int, int, int),
    x: int,
    y: int,
    z: int,
)
    requires
        single_offset3(inputs, s, o, c, t),
        0 <= x < s.k_d->0,
        0 <= y < s.k_h,
        0 <= z < s.k_w,
        !(x == t.0 && y == t.1 && z == t.2),
    ensures
        conv3_term(inputs, s, o.0, o.1, o.2, x, y, z, c) matches Some(v) ==> v == 0,
{
    assert(conv3_read_ok(inputs, s, o, x, y, z));
    if conv3_term(inputs, s, o.0, o.1, o.2, x, y, z, c) is Some {
        let idx = kernel_index3(s, x, y, z);
        let tt = inputs[idx];
        let pos = row3(s, conv3_in(s, o.0, o.1, o.2, x, y, z));
        lemma_size3(tt.shape@);
        assert(pos * tt.shape@[2] + c < tt.shape@[0] * tt.shape@[1] * tt.shape@[2]) by (nonlinear_arith)
            requires
                0 <= pos < tt.shape@[1],
                0 <= c < tt.shape@[2],
                tt.shape@[0] >= 1,
        ;
        assert(0 <= pos * tt.shape@[2] + c) by (nonlinear_arith)
            requires
                0 <= pos,
                0 <= c,
                tt.shape@[2] >= 0,
        ;
        assert(offset3_zero(inputs, s, x, y, z));
    }
}

proof fn lemma_z(
    inputs: Seq<Tensor<Fe>>,
    s: ConvShapeHelper,
    o: (int, int, int),
    c: int,
    t: (int, int, int),
    x: int,
    y: int,
    nz: nat,
    base: nat,
)
    requires
        single_offset3(inputs, s, o, c, t),
        0 <= x < s.k_d->0,
        0 <= y < s.k_h,
        nz <= s.k_w,
        base < modulus(),
        x == t.0 && y == t.1 ==> base == 0,
    ensures
        conv3_z(inputs, s, o, c, x, y, nz, base) == if x == t.0 && y == t.1 && t.2 < nz {
            strided_read3(inputs, s, o, c, t)
        } else {
            base
        },
    decreases nz,
{
    if nz > 0 {
        let z = nz - 1;
        lemma_z(inputs, s, o, c, t, x, y, (nz - 1) as nat, base);
        let prev = conv3_z(inputs, s, o, c, x, y, (nz - 1) as nat, base);
        if x == t.0 && y == t.1 && z == t.2 {
            assert(prev == 0);
            match conv3_term(inputs, s, o.0, o.1, o.2, x, y, z, c) {
                Some(v) => {
                    assert(fadd(0, v) == v % modulus());
                },
                None => {},
            }
        } else {
            lemma_zero_term3(inputs, s, o, c, t, x, y, z);
            assert(strided_read3(inputs, s, o, c, t) < modulus());
            assert(prev < modulus());
            lemma_add_zero(prev);
        }
    }
}

proof fn lemma_y(
    inputs: Seq<Tensor<Fe>>,
    s: ConvShapeHelper,
    o: (int, int, int),
    c: int,
    t: (int, int, int),
    x: int,
    ny: nat,
    base: nat,
)
    requires
        single_offset3(inputs, s, o, c, t),
        0 <= x < s.k_d->0,
        ny <= s.k_h,
        base < modulus(),
        x == t.0 ==> base == 0,
    ensures
        conv3_y(inputs, s, o, c, x, ny, base) == if x == t.0 && t.1 < ny {
            strided_read3(inputs, s, o, c, t)
        } else {
            base
        },
    decreases ny,
{
    if ny > 0 {
        lemma_y(inputs, s, o, c, t, x, (ny - 1) as nat, base);
        let prev = conv3_y(inputs, s, o, c, x, (ny - 1) as nat, base);
        assert(strided_read3(inputs, s, o, c, t) < modulus());
        assert(count(s.k_w as int) == s.k_w);
        lemma_z(inputs, s, o, c, t, x, ny - 1, count(s.k_w as int), prev);
    }
}

proof fn lemma_planes(inputs: Seq<Tensor<Fe>>, s: ConvShapeHelper, o: (int, int, int), c: int, t: (int, int, int), nx: nat)
    requires
        single_offset3(inputs, s, o, c, t),
        nx <= s.k_d->0,
    ensures
        conv3_value(inputs, s, o, c, nx) == if t.0 < nx {
            strided_read3(inputs, s, o, c, t)
        } else {
            0
        },
    decreases nx,
{
    if nx > 0 {
        lemma_planes(inputs, s, o, c, t, (nx - 1) as nat);
        let prev = conv3_value(inputs, s, o, c, (nx - 1) as nat);
        assert(strided_read3(inputs, s, o, c, t) < modulus());
        assert(count(s.k_h as int) == s.k_h);
        lemma_y(inputs, s, o, c, t, nx - 1, count(s.k_h as int), prev);
    }
}

/// A 3D convolution addition in which only the tensor of kernel offset
/// `(tx, ty, tz)` is non-zero holds, at output position `(i, j, k)` and
/// channel `c` (row-major element `((i * H_out + j) * W_out + k) * C_out +
/// c` of the output that `Conv3DAddBasicBlock::run` returns before
/// padding), that tensor's element at input position `(i * s_d + tx -
/// front, j * s_h + ty - top, k * s_w + tz - left)` (zero in the padding).
pub proof fn law_conv3_reads_strided(inputs: Seq<Tensor<Fe>>, s: ConvShapeHelper, o: (int, int, int), c: int, t: (int, int, int))
    requires
        single_offset3(inputs, s, o, c, t),
    ensures
        conv3_at(inputs, s, ((o.0 * conv2_ho(s) + o.1) * conv2_wo(s) + o.2) * s.out_channels + c) == strided_read3(
            inputs,
            s,
            o,
            c,
            t,
        ),
{
    lemma_layout3(conv3_do(s), conv2_ho(s), conv2_wo(s), s.out_channels as int, o.0, o.1, o.2, c);
    assert(count(s.k_d->0 as int) == s.k_d->0);
    lemma_planes(inputs, s, o, c, t, count(s.k_d->0 as int));
}

/// `stride * a + x` with `0 <= x < stride` splits back into `a` and `x`.
proof fn lemma_split(stride: int, a: int, x: int)
    requires
        0 <= x < stride,
    ensures
        (stride * a + x) / stride == a,
        (stride * a + x) % stride == x,
{
    assert(stride * a + x == a * stride + x) by (nonlinear_arith);
    lemma_fundamental_div_mod_converse(stride * a + x, stride, a, x);
}

/// A transposed 3D convolution (kernel as large as the stride) copies: its
/// output at position `(s_d * a + x, s_h * b + y, s_w * e + z)` in channel
/// `c` (row-major element `((o0 * H_out + o1) * W_out + o2) * C_out + c` of
/// the output that `Conv3DTransposeBasicBlock::run` returns before
/// padding) is the element of kernel offset `(x, y, z)`'s tensor at input
/// position `(a, b, e)`.
pub proof fn law_conv3t_copies(
    inputs: Seq<Tensor<Fe>>,
    s: ConvShapeHelper,
    a: (int, int, int),
    t: (int, int, int),
    c: int,
)
    requires
        s.s_d is Some && s.d is Some,
        s.s_d->0 > 0 && s.s_h > 0 && s.s_w > 0,
        0 <= t.0 < s.s_d->0 && 0 <= t.1 < s.s_h && 0 <= t.2 < s.s_w,
        0 <= a.0 < s.d->0 && 0 <= a.1 < s.h && 0 <= a.2 < s.w,
        0 <= s.s_d->0 * a.0 + t.0 < conv3t_dims(s).0,
        0 <= s.s_h * a.1 + t.1 < conv3t_dims(s).1,
        0 <= s.s_w * a.2 + t.2 < conv3t_dims(s).2,
        0 <= c < s.out_channels,
    ensures
        ({
            let dims = conv3t_dims(s);
            let o = (s.s_d->0 * a.0 + t.0, s.s_h * a.1 + t.1, s.s_w * a.2 + t.2);
            let x = inputs[t.0 * s.k_h * s.k_w + t.1 * s.k_w + t.2];
            conv3t_at(inputs, s, ((o.0 * dims.1 + o.1) * dims.2 + o.2) * s.out_channels + c) == x.data@[(a.0 * s.h * s.w
                + a.1 * s.w + a.2) * x.shape@[2] + c]
        }),
{
    let dims = conv3t_dims(s);
    let o = (s.s_d->0 * a.0 + t.0, s.s_h * a.1 + t.1, s.s_w * a.2 + t.2);
    lemma_layout3(dims.0, dims.1, dims.2, s.out_channels as int, o.0, o.1, o.2, c);
    lemma_split(s.s_d->0 as int, a.0, t.0);
    lemma_split(s.s_h as int, a.1, t.1);
    lemma_split(s.s_w as int, a.2, t.2);
}

/// The verifier's check of a transposed 3D convolution accepts output
/// position `(s_d * a + x, s_h * b + y, s_w * e + z)` exactly when its
/// commitment is that of kernel offset `(x, y, z)`'s input at position
/// `(a, b, e)`.
pub proof fn law_conv3t_check_copies(
    inputs: Seq<Tensor<DataEnc>>,
    output: Tensor<DataEnc>,
    s: ConvShapeHelper,
    a: (int, int, int),
    t: (int, int, int),
)
    requires
        s.s_d is Some,
        s.s_d->0 > 0 && s.s_h > 0 && s.s_w > 0,
        0 <= t.0 < s.s_d->0 && 0 <= t.1 < s.s_h && 0 <= t.2 < s.s_w,
    ensures
        ({
            let dims = conv3t_dims(s);
            let o = (s.s_d->0 * a.0 + t.0, s.s_h * a.1 + t.1, s.s_w * a.2 + t.2);
            conv3t_commit_ok(inputs, output, s, o) == (inputs[t.0 * s.k_h * s.k_w + t.1 * s.k_w + t.2].data@[a.0 * s.h
                * s.w + a.1 * s.w + a.2].g1@ == output.data@[o.0 * (dims.1 * dims.2) + o.1 * dims.2 + o.2].g1@)
        }),
{
    lemma_split(s.s_d->0 as int, a.0, t.0);
    lemma_split(s.s_h as int, a.1, t.1);
    lemma_split(s.s_w as int, a.2, t.2);
}

/// The verifier's check of a 3D convolution addition with a `1 x 1 x 1`
/// kernel accepts output position `(i, j, k)` exactly when its commitment
/// is the point of the input commitment at position `(i * s_d - front, j *
/// s_h - top, k * s_w - left)` (added to the identity), or the identity
/// where that lies in the padding.
pub proof fn law_conv3_check_reads_strided(
    inputs: Seq<Tensor<DataEnc>>,
    output: Tensor<DataEnc>,
    s: ConvShapeHelper,
    i: int,
    j: int,
    k: int,
)
    requires
        s.k_d == Some(1i32),
        s.k_h == 1,
        s.k_w == 1,
    ensures
        ({
            let di = i * (s.s_d->0 as int) - (s.p_d_front->0 as int);
            let hi = j * (s.s_h as int) - (s.p_h_top as int);
            let wi = k * (s.s_w as int) - (s.p_w_left as int);
            let want = if 0 <= di < s.d->0 && 0 <= hi < s.h && 0 <= wi < s.w {
                g1_add(g1_zero_view(), enc_point(inputs[0].data@[di * s.h * s.w + hi * s.w + wi]))
            } else {
                g1_zero_view()
            };
            let (ho, wo) = (conv2_ho(s), conv2_wo(s));
            conv3_commit_ok(inputs, output, s, i, j, k) == g1_same_point(
                want,
                enc_point(output.data@[i * (ho * wo) + j * wo + k]),
            )
        }),
{
    let z = g1_zero_view();
    let o = (i, j, k);
    assert(count(1) == 1);
    assert(conv3_commit_sum(inputs, s, o, 0) == z);
    assert(conv3_commit_y(inputs, s, o, 0, 0, z) == z);
    assert(conv3_commit_z(inputs, s, o, 0, 0, 0, z) == z);
    assert(conv3_commit_y(inputs, s, o, 0, 1, z) == conv3_commit_z(inputs, s, o, 0, 0, 1, z));
    assert(conv3_commit_sum(inputs, s, o, 1) == conv3_commit_y(inputs, s, o, 0, 1, z));
    assert(kernel_index3(s, 0, 0, 0) == 0) by (nonlinear_arith)
        requires
            s.k_h == 1,
            s.k_w == 1,
    ;
}

} // verus!
