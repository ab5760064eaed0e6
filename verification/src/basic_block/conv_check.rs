//! The verifier's side of a 2D convolution addition: the commitment of each
//! output position is the sum of the commitments that its kernel reads.
use super::data::{enc_point, DataEnc};
use super::new_conv::{
    conv2_ho, conv2_in, conv2_inside, conv2_wo, conv3_do, conv3_in, conv3_inside, coord_fits, count, in_i32,
    conv3t_dims, conv3t_src, kernel_index3, kernel_index3_fits, lemma_size2, out_len_fits, out_len_t_fits, row3,
    Conv2DAddBasicBlock, Conv3DAddBasicBlock, Conv3DTransposeBasicBlock, ConvShapeHelper,
};
use crate::curve::{g1_add, g1_add_at, g1_eq_at, g1_same_point, g1_zero_view, G1};
use crate::tensor::Tensor;
use vstd::prelude::*;

verus! {

/// The commitment that kernel offset `(x, y)` of output position `(i, j)`
/// adds: that of input `x * k_w + y` at position `x_in * W + y_in`, if the
/// input position lies inside.
pub open spec fn conv2_commit_term(
    inputs: Seq<Tensor<DataEnc>>,
    s: ConvShapeHelper,
    i: int,
    j: int,
    x: int,
    y: int,
) -> Option<(nat, nat, nat)> {
    let p = conv2_in(s, i, j, x, y);
    if conv2_inside(s, p) {
        Some(enc_point(inputs[x * s.k_w + y].data@[p.0 * s.w + p.1]))
    } else {
        None
    }
}

/// The sum, in order, of what the offsets `(x, 0 .. ny)` add, starting from
/// `base`.
pub open spec fn conv2_commit_cols(
    inputs: Seq<Tensor<DataEnc>>,
    s: ConvShapeHelper,
    i: int,
    j: int,
    x: int,
    ny: nat,
    base: (nat, nat, nat),
) -> (nat, nat, nat)
    decreases ny,
{
    if ny == 0 {
        base
    } else {
        let prev = conv2_commit_cols(inputs, s, i, j, x, (ny - 1) as nat, base);
        match conv2_commit_term(inputs, s, i, j, x, ny - 1) {
            Some(v) => g1_add(prev, v),
            None => prev,
        }
    }
}

/// The sum, in order from the identity, of what the kernel rows `0 .. nx`
/// add to output position `(i, j)`.
pub open spec fn conv2_commit_sum(inputs: Seq<Tensor<DataEnc>>, s: ConvShapeHelper, i: int, j: int, nx: nat) -> (
    nat,
    nat,
    nat,
)
    decreases nx,
{
    if nx == 0 {
        g1_zero_view()
    } else {
        conv2_commit_cols(
            inputs,
            s,
            i,
            j,
            nx - 1,
            count(s.k_w as int),
            conv2_commit_sum(inputs, s, i, j, (nx - 1) as nat),
        )
    }
}

/// Whether output position `(i, j)` holds the sum of what its kernel reads.
pub open spec fn conv2_commit_ok(
    inputs: Seq<Tensor<DataEnc>>,
    output: Tensor<DataEnc>,
    s: ConvShapeHelper,
    i: int,
    j: int,
) -> bool {
    g1_same_point(
        conv2_commit_sum(inputs, s, i, j, count(s.k_h as int)),
        enc_point(output.data@[i * conv2_wo(s) + j]),
    )
}

/// The input that kernel offset `(x, y)` of output position `(i, j)` reads,
/// if the input position lies inside, exists as a `[1, n]` tensor (or more
/// rows) that holds that position.
pub open spec fn conv2_commit_read_ok(
    inputs: Seq<Tensor<DataEnc>>,
    s: ConvShapeHelper,
    i: int,
    j: int,
    x: int,
    y: int,
) -> bool {
    let p = conv2_in(s, i, j, x, y);
    conv2_inside(s, p) ==> {
        let idx = x * s.k_w + y;
        &&& 0 <= idx < inputs.len()
        &&& inputs[idx].wf()
        &&& inputs[idx].shape@.len() == 2
        &&& inputs[idx].shape@[0] >= 1
        &&& p.0 * s.w + p.1 < inputs[idx].shape@[1]
    }
}

/// What the check accepts: every number of the index computation fits in an
/// `i32`, every read lies inside its input, and the output is a `[1, n]`
/// tensor (or more rows) that holds every output position.
pub open spec fn conv2_check_accepts(s: ConvShapeHelper, inputs: Seq<Tensor<DataEnc>>, outputs: Seq<Tensor<DataEnc>>) -> bool {
    let ho = conv2_ho(s);
    let wo = conv2_wo(s);
    &&& out_len_fits(s.h as int, s.k_h as int, s.p_h_top as int, s.p_h_bottom as int, s.s_h as int)
    &&& out_len_fits(s.w as int, s.k_w as int, s.p_w_left as int, s.p_w_right as int, s.s_w as int)
    &&& coord_fits(ho, s.k_h as int, s.s_h as int, s.p_h_top as int)
    &&& coord_fits(wo, s.k_w as int, s.s_w as int, s.p_w_left as int)
    &&& forall|x: int, y: int|
        0 <= x < s.k_h && 0 <= y < s.k_w ==> in_i32(x * s.k_w) && in_i32(#[trigger] (x * s.k_w + y))
    &&& forall|i: int, j: int, x: int, y: int|
        0 <= i < ho && 0 <= j < wo && 0 <= x < s.k_h && 0 <= y < s.k_w ==> #[trigger] conv2_commit_read_ok(
            inputs,
            s,
            i,
            j,
            x,
            y,
        )
    &&& outputs.len() >= 1
    &&& outputs[0].wf()
    &&& outputs[0].shape@.len() == 2
    &&& outputs[0].shape@[0] >= 1
    &&& (ho > 0 && wo > 0 ==> ho * wo <= outputs[0].shape@[1])
}

/// The sum of the commitments that the kernel reads for output position
/// `(i, j)`.
fn conv2_commit_point(inputs: &Vec<Tensor<DataEnc>>, outputs: &Vec<Tensor<DataEnc>>, s: &ConvShapeHelper, i: i64, j: i64) -> (r: G1)
    requires
        conv2_check_accepts(*s, inputs@, outputs@),
        0 <= i < conv2_ho(*s),
        0 <= j < conv2_wo(*s),
    ensures
        r@ == conv2_commit_sum(inputs@, *s, i as int, j as int, count(s.k_h as int)),
{
    let kh = s.k_h as i64;
    let kw = s.k_w as i64;
    let mut sum = G1::zero();
    let mut x: i64 = 0;
    while x < kh
        invariant
            conv2_check_accepts(*s, inputs@, outputs@),
            0 <= i < conv2_ho(*s),
            0 <= j < conv2_wo(*s),
            kh == s.k_h,
            kw == s.k_w,
            0 <= x,
            x <= kh || x == 0,
            sum@ == conv2_commit_sum(inputs@, *s, i as int, j as int, x as nat),
        decreases kh - x,
    {
        let ghost base = sum@;
        let mut y: i64 = 0;
        while y < kw
            invariant
                conv2_check_accepts(*s, inputs@, outputs@),
                0 <= i < conv2_ho(*s),
                0 <= j < conv2_wo(*s),
                kh == s.k_h,
                kw == s.k_w,
                0 <= x < kh,
                0 <= y,
                y <= kw || y == 0,
                sum@ == conv2_commit_cols(inputs@, *s, i as int, j as int, x as int, y as nat, base),
            decreases kw - y,
        {
            assert(conv2_commit_read_ok(inputs@, *s, i as int, j as int, x as int, y as int));
            let xin = i * (s.s_h as i64) + x - (s.p_h_top as i64);
            let yin = j * (s.s_w as i64) + y - (s.p_w_left as i64);
            if xin >= 0 && xin < s.h as i64 && yin >= 0 && yin < s.w as i64 {
                let idx = (x * kw + y) as usize;
                let t = &inputs[idx];
                proof {
                    assert(0 <= xin * (s.w as i64) + yin < 0x4000_0000_0000_0000) by (nonlinear_arith)
                        requires
                            0 <= xin < s.h,
                            0 <= yin < s.w,
                            s.h <= i32::MAX,
                            s.w <= i32::MAX,
                    ;
                }
                let pos = (xin * (s.w as i64) + yin) as usize;
                let dlen = t.data.len();
                proof {
                    assert(t.shape@ =~= seq![t.shape@[0], t.shape@[1]]);
                    lemma_size2(t.shape@[0], t.shape@[1]);
                    assert(pos < t.shape@[0] * t.shape@[1]) by (nonlinear_arith)
                        requires
                            pos < t.shape@[1],
                            t.shape@[0] >= 1,
                    ;
                }
                let p = t.data[pos].g1.to_projective();
                sum = g1_add_at(&sum, &p);
            }
            y = y + 1;
        }
        x = x + 1;
    }
    sum
}

impl Conv2DAddBasicBlock {
    /// The verifier's check of a 2D convolution addition: whether, at every
    /// output position, the output commitment is the sum of the commitments
    /// that the kernel reads there. No pairing check is left to do
    /// afterwards.
    pub fn verify(&self, inputs: &Vec<Tensor<DataEnc>>, outputs: &Vec<Tensor<DataEnc>>) -> (r: bool)
        requires
            self.input_shape@.len() >= 2,
            self.kernel_shape@.len() >= 2,
            self.stride@.len() >= 2,
            self.padding@.len() >= 4,
            conv2_check_accepts(self.shape(), inputs@, outputs@),
        ensures
            r == forall|i: int, j: int|
                0 <= i < conv2_ho(self.shape()) && 0 <= j < conv2_wo(self.shape()) ==> #[trigger] conv2_commit_ok(
                    inputs@,
                    outputs@[0],
                    self.shape(),
                    i,
                    j,
                ),
    {
        let s = ConvShapeHelper::from_conv2d_add(self);
        let ho: i64 = (s.h as i64 - s.k_h as i64 + s.p_h_top as i64 + s.p_h_bottom as i64) / (s.s_h as i64) + 1;
        let wo: i64 = (s.w as i64 - s.k_w as i64 + s.p_w_left as i64 + s.p_w_right as i64) / (s.s_w as i64) + 1;
        assert(ho == conv2_ho(s) && wo == conv2_wo(s));
        let out = &outputs[0];
        let ghost os = out.shape@;
        proof {
            assert(os =~= seq![os[0], os[1]]);
            lemma_size2(os[0], os[1]);
        }
        let mut i: i64 = 0;
        while i < ho
            invariant
                conv2_check_accepts(s, inputs@, outputs@),
                s == self.shape(),
                ho == conv2_ho(s),
                wo == conv2_wo(s),
                out == &outputs@[0],
                out.data@.len() == (os[0] as nat) * (os[1] as nat),
                os == out.shape@,
                0 <= i <= ho || ho <= 0,
                i >= 0,
                forall|i2: int, j2: int|
                    0 <= i2 < i && 0 <= j2 < wo ==> #[trigger] conv2_commit_ok(inputs@, *out, s, i2, j2),
            decreases ho - i,
        {
            let mut j: i64 = 0;
            while j < wo
                invariant
                    conv2_check_accepts(s, inputs@, outputs@),
                    s == self.shape(),
                    ho == conv2_ho(s),
                    wo == conv2_wo(s),
                    out == &outputs@[0],
                    out.data@.len() == (os[0] as nat) * (os[1] as nat),
                    os == out.shape@,
                    0 <= i < ho,
                    0 <= j <= wo || wo <= 0,
                    j >= 0,
                    forall|i2: int, j2: int|
                        0 <= i2 < i && 0 <= j2 < wo ==> #[trigger] conv2_commit_ok(inputs@, *out, s, i2, j2),
                    forall|j2: int| 0 <= j2 < j ==> #[trigger] conv2_commit_ok(inputs@, *out, s, i as int, j2),
                decreases wo - j,
            {
                let sum = conv2_commit_point(inputs, outputs, &s, i, j);
                proof {
                    assert(i * wo + j < ho * wo) by (nonlinear_arith)
                        requires
                            0 <= i < ho,
                            0 <= j < wo,
                    ;
                    assert(i * wo + j < 0x4000_0000_0000_0000) by (nonlinear_arith)
                        requires
                            0 <= i < ho,
                            0 <= j < wo,
                            ho <= i32::MAX,
                            wo <= i32::MAX,
                    ;
                    assert(os[1] <= (os[0] as nat) * (os[1] as nat)) by (nonlinear_arith)
                        requires
                            os[0] >= 1,
                    ;
                }
                let k = (i * wo + j) as usize;
                let c = out.data[k].g1.to_projective();
                if !g1_eq_at(&sum, &c) {
                    assert(!conv2_commit_ok(inputs@, *out, s, i as int, j as int));
                    return false;
                }
                j = j + 1;
            }
            i = i + 1;
        }
        true
    }
}

/// The commitment that kernel offset `(x, y, z)` of output position `o`
/// adds, if its input position lies inside.
pub open spec fn conv3_commit_term(
    inputs: Seq<Tensor<DataEnc>>,
    s: ConvShapeHelper,
    o: (int, int, int),
    x: int,
    y: int,
    z: int,
) -> Option<(nat, nat, nat)> {
    let p = conv3_in(s, o.0, o.1, o.2, x, y, z);
    if conv3_inside(s, p) {
        Some(enc_point(inputs[kernel_index3(s, x, y, z)].data@[row3(s, p)]))
    } else {
        None
    }
}

/// The sum, in order, of what the offsets `(x, y, 0 .. nz)` add, from `base`.
pub open spec fn conv3_commit_z(
    inputs: Seq<Tensor<DataEnc>>,
    s: ConvShapeHelper,
    o: (int, int, int),
    x: int,
    y: int,
    nz: nat,
    base: (nat, nat, nat),
) -> (nat, nat, nat)
    decreases nz,
{
    if nz == 0 {
        base
    } else {
        let prev = conv3_commit_z(inputs, s, o, x, y, (nz - 1) as nat, base);
        match conv3_commit_term(inputs, s, o, x, y, nz - 1) {
            Some(v) => g1_add(prev, v),
            None => prev,
        }
    }
}

/// The sum, in order, of what the offsets `(x, 0 .. ny, _)` add, from `base`.
pub open spec fn conv3_commit_y(
    inputs: Seq<Tensor<DataEnc>>,
    s: ConvShapeHelper,
    o: (int, int, int),
    x: int,
    ny: nat,
    base: (nat, nat, nat),
) -> (nat, nat, nat)
    decreases ny,
{
    if ny == 0 {
        base
    } else {
        conv3_commit_z(inputs, s, o, x, ny - 1, count(s.k_w as int), conv3_commit_y(inputs, s, o, x, (ny - 1) as nat, base))
    }
}

/// The sum, in order from the identity, of what the kernel planes `0 .. nx`
/// add to output position `o`.
pub open spec fn conv3_commit_sum(inputs: Seq<Tensor<DataEnc>>, s: ConvShapeHelper, o: (int, int, int), nx: nat) -> (
    nat,
    nat,
    nat,
)
    decreases nx,
{
    if nx == 0 {
        g1_zero_view()
    } else {
        conv3_commit_y(inputs, s, o, nx - 1, count(s.k_h as int), conv3_commit_sum(inputs, s, o, (nx - 1) as nat))
    }
}

/// Whether output position `(i, j, k)` holds the sum of what its kernel reads.
pub open spec fn conv3_commit_ok(
    inputs: Seq<Tensor<DataEnc>>,
    output: Tensor<DataEnc>,
    s: ConvShapeHelper,
    i: int,
    j: int,
    k: int,
) -> bool {
    let (ho, wo) = (conv2_ho(s), conv2_wo(s));
    g1_same_point(
        conv3_commit_sum(inputs, s, (i, j, k), count(s.k_d->0 as int)),
        enc_point(output.data@[i * (ho * wo) + j * wo + k]),
    )
}

/// The input that kernel offset `(x, y, z)` of output position `o` reads,
/// if the input position lies inside, exists as a `[1, n]` tensor (or more
/// rows) that holds that position.
pub open spec fn conv3_commit_read_ok(
    inputs: Seq<Tensor<DataEnc>>,
    s: ConvShapeHelper,
    o: (int, int, int),
    x: int,
    y: int,
    z: int,
) -> bool {
    let p = conv3_in(s, o.0, o.1, o.2, x, y, z);
    conv3_inside(s, p) ==> {
        let idx = kernel_index3(s, x, y, z);
        &&& 0 <= idx < inputs.len()
        &&& inputs[idx].wf()
        &&& inputs[idx].shape@.len() == 2
        &&& inputs[idx].shape@[0] >= 1
        &&& row3(s, p) < inputs[idx].shape@[1]
    }
}

/// What the 3D check accepts: the output's height and width are not
/// negative, every number of the index computation fits in an `i32`, every
/// read lies inside its input, and the output is a `[1, n]`
/// tensor (or more rows) that holds every output position.
pub open spec fn conv3_check_accepts(s: ConvShapeHelper, inputs: Seq<Tensor<DataEnc>>, outputs: Seq<Tensor<DataEnc>>) -> bool {
    let nd = conv3_do(s);
    let ho = conv2_ho(s);
    let wo = conv2_wo(s);
    &&& s.d is Some && s.k_d is Some && s.s_d is Some && s.p_d_front is Some && s.p_d_back is Some
    &&& out_len_fits(s.d->0 as int, s.k_d->0 as int, s.p_d_front->0 as int, s.p_d_back->0 as int, s.s_d->0 as int)
    &&& out_len_fits(s.h as int, s.k_h as int, s.p_h_top as int, s.p_h_bottom as int, s.s_h as int)
    &&& out_len_fits(s.w as int, s.k_w as int, s.p_w_left as int, s.p_w_right as int, s.s_w as int)
    &&& ho >= 0 && wo >= 0
    &&& in_i32(ho * wo)
    &&& coord_fits(nd, s.k_d->0 as int, s.s_d->0 as int, s.p_d_front->0 as int)
    &&& coord_fits(ho, s.k_h as int, s.s_h as int, s.p_h_top as int)
    &&& coord_fits(wo, s.k_w as int, s.s_w as int, s.p_w_left as int)
    &&& forall|x: int, y: int, z: int|
        0 <= x < s.k_d->0 && 0 <= y < s.k_h && 0 <= z < s.k_w ==> #[trigger] kernel_index3_fits(s, x, y, z)
    &&& forall|i: int, j: int, k: int, x: int, y: int, z: int|
        0 <= i < nd && 0 <= j < ho && 0 <= k < wo && 0 <= x < s.k_d->0 && 0 <= y < s.k_h && 0 <= z < s.k_w
            ==> #[trigger] conv3_commit_read_ok(inputs, s, (i, j, k), x, y, z)
    &&& outputs.len() >= 1
    &&& outputs[0].wf()
    &&& outputs[0].shape@.len() == 2
    &&& outputs[0].shape@[0] >= 1
    &&& (nd > 0 && ho > 0 && wo > 0 ==> nd * (ho * wo) <= outputs[0].shape@[1])
}

/// The sum of the commitments that the kernel reads for output position `o`.
fn conv3_commit_point(
    inputs: &Vec<Tensor<DataEnc>>,
    outputs: &Vec<Tensor<DataEnc>>,
    s: &ConvShapeHelper,
    o: (i64, i64, i64),
) -> (r: G1)
    requires
        conv3_check_accepts(*s, inputs@, outputs@),
        0 <= o.0 < conv3_do(*s),
        0 <= o.1 < conv2_ho(*s),
        0 <= o.2 < conv2_wo(*s),
    ensures
        r@ == conv3_commit_sum(inputs@, *s, (o.0 as int, o.1 as int, o.2 as int), count(s.k_d->0 as int)),
{
    let ghost og = (o.0 as int, o.1 as int, o.2 as int);
    let kd = s.k_d.unwrap() as i64;
    let kh = s.k_h as i64;
    let kw = s.k_w as i64;
    let sd = s.s_d.unwrap() as i64;
    let pf = s.p_d_front.unwrap() as i64;
    let dd = s.d.unwrap() as i64;
    let mut sum = G1::zero();
    let mut x: i64 = 0;
    while x < kd
        invariant
            conv3_check_accepts(*s, inputs@, outputs@),
            0 <= o.0 < conv3_do(*s),
            0 <= o.1 < conv2_ho(*s),
            0 <= o.2 < conv2_wo(*s),
            og == (o.0 as int, o.1 as int, o.2 as int),
            kd == s.k_d->0,
            kh == s.k_h,
            kw == s.k_w,
            sd == s.s_d->0,
            pf == s.p_d_front->0,
            dd == s.d->0,
            0 <= x,
            x <= kd || x == 0,
            sum@ == conv3_commit_sum(inputs@, *s, og, x as nat),
        decreases kd - x,
    {
        let ghost base_x = sum@;
        let mut y: i64 = 0;
        while y < kh
            invariant
                conv3_check_accepts(*s, inputs@, outputs@),
                0 <= o.0 < conv3_do(*s),
                0 <= o.1 < conv2_ho(*s),
                0 <= o.2 < conv2_wo(*s),
                og == (o.0 as int, o.1 as int, o.2 as int),
                kd == s.k_d->0,
                kh == s.k_h,
                kw == s.k_w,
                sd == s.s_d->0,
                pf == s.p_d_front->0,
                dd == s.d->0,
                0 <= x < kd,
                0 <= y,
                y <= kh || y == 0,
                sum@ == conv3_commit_y(inputs@, *s, og, x as int, y as nat, base_x),
            decreases kh - y,
        {
            let ghost base_y = sum@;
            let mut z: i64 = 0;
            while z < kw
                invariant
                    conv3_check_accepts(*s, inputs@, outputs@),
                    0 <= o.0 < conv3_do(*s),
                    0 <= o.1 < conv2_ho(*s),
                    0 <= o.2 < conv2_wo(*s),
                    og == (o.0 as int, o.1 as int, o.2 as int),
                    kd == s.k_d->0,
                    kh == s.k_h,
                    kw == s.k_w,
                    sd == s.s_d->0,
                    pf == s.p_d_front->0,
                    dd == s.d->0,
                    0 <= x < kd,
                    0 <= y < kh,
                    0 <= z,
                    z <= kw || z == 0,
                    sum@ == conv3_commit_z(inputs@, *s, og, x as int, y as int, z as nat, base_y),
                decreases kw - z,
            {
                assert(conv3_commit_read_ok(inputs@, *s, og, x as int, y as int, z as int));
                assert(kernel_index3_fits(*s, x as int, y as int, z as int));
                let xin = o.0 * sd + x - pf;
                let yin = o.1 * (s.s_h as i64) + y - (s.p_h_top as i64);
                let zin = o.2 * (s.s_w as i64) + z - (s.p_w_left as i64);
                if xin >= 0 && xin < dd && yin >= 0 && yin < s.h as i64 && zin >= 0 && zin < s.w as i64 {
                    let idx = (x * kh * kw + y * kw + z) as usize;
                    let ghost rw = row3(*s, (xin as int, yin as int, zin as int));
                    proof {
                        assert(rw < inputs@[idx as int].shape@[1]);
                        assert(0 <= (xin as int) * (s.h as int) * (s.w as int) <= rw) by (nonlinear_arith)
                            requires
                                rw == (xin as int) * (s.h as int) * (s.w as int) + (yin as int) * (s.w as int) + zin,
                                0 <= xin,
                                0 <= yin,
                                0 <= zin,
                                0 < s.h,
                                0 < s.w,
                        ;
                        assert(0 <= (xin as int) * (s.h as int) <= (xin as int) * (s.h as int) * (s.w as int))
                            by (nonlinear_arith)
                            requires
                                0 <= xin,
                                0 < s.h,
                                0 < s.w,
                        ;
                        assert(0 <= (yin as int) * (s.w as int) <= rw) by (nonlinear_arith)
                            requires
                                rw == (xin as int) * (s.h as int) * (s.w as int) + (yin as int) * (s.w as int) + zin,
                                0 <= xin,
                                0 <= yin,
                                0 <= zin,
                                0 < s.h,
                                0 < s.w,
                        ;
                    }
                    let row = (xin as usize) * (s.h as usize) * (s.w as usize) + (yin as usize) * (s.w as usize) + (zin as usize);
                    let t = &inputs[idx];
                    let dlen = t.data.len();
                    proof {
                        assert(t.shape@ =~= seq![t.shape@[0], t.shape@[1]]);
                        lemma_size2(t.shape@[0], t.shape@[1]);
                        assert(row < t.shape@[0] * t.shape@[1]) by (nonlinear_arith)
                            requires
                                row < t.shape@[1],
                                t.shape@[0] >= 1,
                        ;
                    }
                    let q = t.data[row].g1.to_projective();
                    sum = g1_add_at(&sum, &q);
                }
                z = z + 1;
            }
            y = y + 1;
        }
        x = x + 1;
    }
    sum
}

impl Conv3DAddBasicBlock {
    /// The verifier's check of a 3D convolution addition: whether, at every
    /// output position, the output commitment is the sum of the commitments
    /// that the kernel reads there. No pairing check is left to do
    /// afterwards.
    pub fn verify(&self, inputs: &Vec<Tensor<DataEnc>>, outputs: &Vec<Tensor<DataEnc>>) -> (r: bool)
        requires
            self.input_shape@.len() >= 3,
            self.kernel_shape@.len() >= 3,
            self.stride@.len() >= 3,
            self.padding@.len() >= 6,
            conv3_check_accepts(self.shape(), inputs@, outputs@),
        ensures
            r == forall|i: int, j: int, k: int|
                0 <= i < conv3_do(self.shape()) && 0 <= j < conv2_ho(self.shape()) && 0 <= k < conv2_wo(self.shape())
                    ==> #[trigger] conv3_commit_ok(inputs@, outputs@[0], self.shape(), i, j, k),
    {
        let s = ConvShapeHelper::from_conv3d_add(self);
        let nd: i64 = (s.d.unwrap() as i64 - s.k_d.unwrap() as i64 + s.p_d_front.unwrap() as i64 + s.p_d_back.unwrap() as i64)
            / (s.s_d.unwrap() as i64) + 1;
        let ho: i64 = (s.h as i64 - s.k_h as i64 + s.p_h_top as i64 + s.p_h_bottom as i64) / (s.s_h as i64) + 1;
        let wo: i64 = (s.w as i64 - s.k_w as i64 + s.p_w_left as i64 + s.p_w_right as i64) / (s.s_w as i64) + 1;
        assert(nd == conv3_do(s) && ho == conv2_ho(s) && wo == conv2_wo(s));
        let out = &outputs[0];
        let ghost os = out.shape@;
        proof {
            assert(os =~= seq![os[0], os[1]]);
            lemma_size2(os[0], os[1]);
        }
        let mut i: i64 = 0;
        while i < nd
            invariant
                conv3_check_accepts(s, inputs@, outputs@),
                s == self.shape(),
                nd == conv3_do(s),
                ho == conv2_ho(s),
                wo == conv2_wo(s),
                out == &outputs@[0],
                out.data@.len() == (os[0] as nat) * (os[1] as nat),
                os == out.shape@,
                i >= 0,
                forall|i2: int, j2: int, k2: int|
                    0 <= i2 < i && 0 <= j2 < ho && 0 <= k2 < wo ==> #[trigger] conv3_commit_ok(inputs@, *out, s, i2, j2, k2),
            decreases nd - i,
        {
            let mut j: i64 = 0;
            while j < ho
                invariant
                    conv3_check_accepts(s, inputs@, outputs@),
                    s == self.shape(),
                    nd == conv3_do(s),
                    ho == conv2_ho(s),
                    wo == conv2_wo(s),
                    out == &outputs@[0],
                    out.data@.len() == (os[0] as nat) * (os[1] as nat),
                    os == out.shape@,
                    0 <= i < nd,
                    j >= 0,
                    forall|i2: int, j2: int, k2: int|
                        0 <= i2 < i && 0 <= j2 < ho && 0 <= k2 < wo ==> #[trigger] conv3_commit_ok(inputs@, *out, s, i2, j2, k2),
                    forall|j2: int, k2: int|
                        0 <= j2 < j && 0 <= k2 < wo ==> #[trigger] conv3_commit_ok(inputs@, *out, s, i as int, j2, k2),
                decreases ho - j,
            {
                let mut k: i64 = 0;
                while k < wo
                    invariant
                        conv3_check_accepts(s, inputs@, outputs@),
                        s == self.shape(),
                        nd == conv3_do(s),
                        ho == conv2_ho(s),
                        wo == conv2_wo(s),
                        out == &outputs@[0],
                        out.data@.len() == (os[0] as nat) * (os[1] as nat),
                        os == out.shape@,
                        0 <= i < nd,
                        0 <= j < ho,
                        k >= 0,
                        forall|i2: int, j2: int, k2: int|
                            0 <= i2 < i && 0 <= j2 < ho && 0 <= k2 < wo ==> #[trigger] conv3_commit_ok(inputs@, *out, s, i2, j2, k2),
                        forall|j2: int, k2: int|
                            0 <= j2 < j && 0 <= k2 < wo ==> #[trigger] conv3_commit_ok(inputs@, *out, s, i as int, j2, k2),
                        forall|k2: int| 0 <= k2 < k ==> #[trigger] conv3_commit_ok(inputs@, *out, s, i as int, j as int, k2),
                    decreases wo - k,
                {
                    let sum = conv3_commit_point(inputs, outputs, &s, (i, j, k));
                    proof {
                        assert(i * (ho * wo) + j * wo + k < nd * (ho * wo)) by (nonlinear_arith)
                            requires
                                0 <= i < nd,
                                0 <= j < ho,
                                0 <= k < wo,
                        ;
                        assert(0 <= i * (ho * wo) + j * wo + k < 0x4000_0000_0000_0000) by (nonlinear_arith)
                            requires
                                0 <= i < nd,
                                0 <= j < ho,
                                0 <= k < wo,
                                nd <= i32::MAX,
                                ho * wo <= i32::MAX,
                        ;
                        assert(os[1] <= (os[0] as nat) * (os[1] as nat)) by (nonlinear_arith)
                            requires
                                os[0] >= 1,
                        ;
                    }
                    let q = (i * (ho * wo) + j * wo + k) as usize;
                    let c = out.data[q].g1.to_projective();
                    if !g1_eq_at(&sum, &c) {
                        assert(!conv3_commit_ok(inputs@, *out, s, i as int, j as int, k as int));
                        return false;
                    }
                    k = k + 1;
                }
                j = j + 1;
            }
            i = i + 1;
        }
        true
    }
}

/// Whether output position `o` of a transposed convolution holds the
/// commitment it copies: that of the input of its kernel offset `o %
/// stride`, at its source position `o / stride`.
pub open spec fn conv3t_commit_ok(
    inputs: Seq<Tensor<DataEnc>>,
    output: Tensor<DataEnc>,
    s: ConvShapeHelper,
    o: (int, int, int),
) -> bool {
    let dims = conv3t_dims(s);
    let (p, kxyz) = conv3t_src(s, o);
    inputs[kernel_index3(s, kxyz.0, kxyz.1, kxyz.2)].data@[row3(s, p)].g1@ == output.data@[o.0 * (dims.1 * dims.2)
        + o.1 * dims.2 + o.2].g1@
}

/// The input that output position `o` copies exists as a `[1, n]` tensor
/// (or more rows) that holds its source position, and its index fits in an
/// `i32`.
pub open spec fn conv3t_commit_read_ok(inputs: Seq<Tensor<DataEnc>>, s: ConvShapeHelper, o: (int, int, int)) -> bool {
    let (p, kxyz) = conv3t_src(s, o);
    let idx = kernel_index3(s, kxyz.0, kxyz.1, kxyz.2);
    &&& kernel_index3_fits(s, kxyz.0, kxyz.1, kxyz.2)
    &&& 0 <= p.0 * s.h * s.w + p.1 * s.w + p.2 <= 0x4000_0000_0000_0000
    &&& 0 <= idx < inputs.len()
    &&& inputs[idx].wf()
    &&& inputs[idx].shape@.len() == 2
    &&& inputs[idx].shape@[0] >= 1
    &&& row3(s, p) < inputs[idx].shape@[1]
}

/// What the transposed check accepts: a kernel as large as the stride, a
/// positive stride and no padding (the only case handled), output sizes in
/// `i32` with a height and width that are not negative, every source inside
/// its input, and an output that holds every output position.
pub open spec fn conv3t_check_accepts(s: ConvShapeHelper, inputs: Seq<Tensor<DataEnc>>, outputs: Seq<Tensor<DataEnc>>) -> bool {
    let dims = conv3t_dims(s);
    &&& s.d is Some && s.k_d is Some && s.s_d is Some && s.p_d_front is Some && s.p_d_back is Some
    &&& s.k_d == s.s_d && s.k_h == s.s_h && s.k_w == s.s_w
    &&& s.p_d_front == Some(0i32) && s.p_h_top == 0 && s.p_w_left == 0
    &&& s.p_d_back == Some(0i32) && s.p_h_bottom == 0 && s.p_w_right == 0
    &&& s.s_d->0 > 0 && s.s_h > 0 && s.s_w > 0
    &&& s.h >= 0 && s.w >= 0
    &&& out_len_t_fits(s.d->0 as int, s.k_d->0 as int, 0, 0, s.s_d->0 as int)
    &&& out_len_t_fits(s.h as int, s.k_h as int, 0, 0, s.s_h as int)
    &&& out_len_t_fits(s.w as int, s.k_w as int, 0, 0, s.s_w as int)
    &&& dims.1 >= 0 && dims.2 >= 0
    &&& in_i32(dims.1 * dims.2)
    &&& forall|i: int, j: int, k: int|
        0 <= i < dims.0 && 0 <= j < dims.1 && 0 <= k < dims.2 ==> #[trigger] conv3t_commit_read_ok(inputs, s, (i, j, k))
    &&& outputs.len() >= 1
    &&& outputs[0].wf()
    &&& outputs[0].shape@.len() == 2
    &&& outputs[0].shape@[0] >= 1
    &&& (dims.0 > 0 ==> dims.0 * (dims.1 * dims.2) <= outputs[0].shape@[1])
}

impl Conv3DTransposeBasicBlock {
    /// The verifier's check of a transposed 3D convolution: whether every
    /// output commitment is the input commitment it copies. No pairing check
    /// is left to do afterwards.
    pub fn verify(&self, inputs: &Vec<Tensor<DataEnc>>, outputs: &Vec<Tensor<DataEnc>>) -> (r: bool)
        requires
            self.input_shape@.len() >= 3,
            self.kernel_shape@.len() >= 3,
            self.stride@.len() >= 3,
            self.padding@.len() >= 6,
            conv3t_check_accepts(self.shape(), inputs@, outputs@),
        ensures
            r == forall|i: int, j: int, k: int|
                0 <= i < conv3t_dims(self.shape()).0 && 0 <= j < conv3t_dims(self.shape()).1 && 0 <= k < conv3t_dims(
                    self.shape(),
                ).2 ==> #[trigger] conv3t_commit_ok(inputs@, outputs@[0], self.shape(), (i, j, k)),
    {
        let s = ConvShapeHelper::from_conv3d_transpose(self);
        let sd = s.s_d.unwrap() as i64;
        let sh = s.s_h as i64;
        let sw = s.s_w as i64;
        let nd: i64 = (s.d.unwrap() as i64 - 1) * sd + (s.k_d.unwrap() as i64 - 1) + 1;
        let ho: i64 = (s.h as i64 - 1) * sh + (s.k_h as i64 - 1) + 1;
        let wo: i64 = (s.w as i64 - 1) * sw + (s.k_w as i64 - 1) + 1;
        let ghost dims = conv3t_dims(s);
        assert(nd == dims.0 && ho == dims.1 && wo == dims.2);
        let out = &outputs[0];
        let ghost os = out.shape@;
        proof {
            assert(os =~= seq![os[0], os[1]]);
            lemma_size2(os[0], os[1]);
        }
        let kh = s.k_h as i64;
        let kw = s.k_w as i64;
        let mut i: i64 = 0;
        while i < nd
            invariant
                conv3t_check_accepts(s, inputs@, outputs@),
                s == self.shape(),
                dims == conv3t_dims(s),
                nd == dims.0,
                ho == dims.1,
                wo == dims.2,
                sd == s.s_d->0,
                sh == s.s_h,
                sw == s.s_w,
                kh == s.k_h,
                kw == s.k_w,
                out == &outputs@[0],
                out.data@.len() == (os[0] as nat) * (os[1] as nat),
                os == out.shape@,
                i >= 0,
                forall|i2: int, j2: int, k2: int|
                    0 <= i2 < i && 0 <= j2 < ho && 0 <= k2 < wo ==> #[trigger] conv3t_commit_ok(inputs@, *out, s, (i2, j2, k2)),
            decreases nd - i,
        {
            let mut j: i64 = 0;
            while j < ho
                invariant
                    conv3t_check_accepts(s, inputs@, outputs@),
                    s == self.shape(),
                    dims == conv3t_dims(s),
                    nd == dims.0,
                    ho == dims.1,
                    wo == dims.2,
                    sd == s.s_d->0,
                    sh == s.s_h,
                    sw == s.s_w,
                    kh == s.k_h,
                    kw == s.k_w,
                    out == &outputs@[0],
                    out.data@.len() == (os[0] as nat) * (os[1] as nat),
                    os == out.shape@,
                    0 <= i < nd,
                    j >= 0,
                    forall|i2: int, j2: int, k2: int|
                        0 <= i2 < i && 0 <= j2 < ho && 0 <= k2 < wo ==> #[trigger] conv3t_commit_ok(inputs@, *out, s, (i2, j2, k2)),
                    forall|j2: int, k2: int|
                        0 <= j2 < j && 0 <= k2 < wo ==> #[trigger] conv3t_commit_ok(inputs@, *out, s, (i as int, j2, k2)),
                decreases ho - j,
            {
                let mut k: i64 = 0;
                while k < wo
                    invariant
                        conv3t_check_accepts(s, inputs@, outputs@),
                        s == self.shape(),
                        dims == conv3t_dims(s),
                        nd == dims.0,
                        ho == dims.1,
                        wo == dims.2,
                        sd == s.s_d->0,
                        sh == s.s_h,
                        sw == s.s_w,
                        kh == s.k_h,
                        kw == s.k_w,
                        out == &outputs@[0],
                        out.data@.len() == (os[0] as nat) * (os[1] as nat),
                        os == out.shape@,
                        0 <= i < nd,
                        0 <= j < ho,
                        k >= 0,
                        forall|i2: int, j2: int, k2: int|
                            0 <= i2 < i && 0 <= j2 < ho && 0 <= k2 < wo ==> #[trigger] conv3t_commit_ok(inputs@, *out, s, (i2, j2, k2)),
                        forall|j2: int, k2: int|
                            0 <= j2 < j && 0 <= k2 < wo ==> #[trigger] conv3t_commit_ok(inputs@, *out, s, (i as int, j2, k2)),
                        forall|k2: int| 0 <= k2 < k ==> #[trigger] conv3t_commit_ok(inputs@, *out, s, (i as int, j as int, k2)),
                    decreases wo - k,
                {
                    assert(conv3t_commit_read_ok(inputs@, s, (i as int, j as int, k as int)));
                    let (x, y, z) = (i % sd, j % sh, k % sw);
                    let (xin, yin, zin) = (i / sd, j / sh, k / sw);
                    let idx = (x * kh * kw + y * kw + z) as usize;
                    proof {
                        let (hh, ww) = (s.h as int, s.w as int);
                        assert(0 <= xin * hh < 0x4000_0000_0000_0000) by (nonlinear_arith)
                            requires
                                0 <= xin <= i32::MAX,
                                0 <= hh <= i32::MAX,
                        ;
                        assert(0 <= yin * ww < 0x4000_0000_0000_0000) by (nonlinear_arith)
                            requires
                                0 <= yin <= i32::MAX,
                                0 <= ww <= i32::MAX,
                        ;
                        assert(0 <= xin * hh * ww) by (nonlinear_arith)
                            requires
                                0 <= xin,
                                0 <= hh,
                                0 <= ww,
                        ;
                    }
                    let row = (xin * (s.h as i64) * (s.w as i64) + yin * (s.w as i64) + zin) as usize;
                    let t = &inputs[idx];
                    let dlen = t.data.len();
                    proof {
                        assert(t.shape@ =~= seq![t.shape@[0], t.shape@[1]]);
                        lemma_size2(t.shape@[0], t.shape@[1]);
                        assert(row < t.shape@[0] * t.shape@[1]) by (nonlinear_arith)
                            requires
                                row < t.shape@[1],
                                t.shape@[0] >= 1,
                        ;
                        assert(i * (ho * wo) + j * wo + k < nd * (ho * wo)) by (nonlinear_arith)
                            requires
                                0 <= i < nd,
                                0 <= j < ho,
                                0 <= k < wo,
                        ;
                        assert(0 <= i * (ho * wo) + j * wo + k < 0x4000_0000_0000_0000) by (nonlinear_arith)
                            requires
                                0 <= i < nd,
                                0 <= j < ho,
                                0 <= k < wo,
                                nd <= i32::MAX,
                                ho * wo <= i32::MAX,
                        ;
                        assert(os[1] <= (os[0] as nat) * (os[1] as nat)) by (nonlinear_arith)
                            requires
                                os[0] >= 1,
                        ;
                    }
                    let q = (i * (ho * wo) + j * wo + k) as usize;
                    if !t.data[row].g1.same(&out.data[q].g1) {
                        assert(!conv3t_commit_ok(inputs@, *out, s, (i as int, j as int, k as int)));
                        return false;
                    }
                    k = k + 1;
                }
                j = j + 1;
            }
            i = i + 1;
        }
        true
    }
}

} // verus!
