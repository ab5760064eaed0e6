//! Integer division and remainder of the signed values field elements stand
//! for.
use super::vec_tensor;
use crate::field::{fits_i128, fr_to_int, int_to_field, signed_value, Fe};
use crate::tensor::Tensor;
use vstd::prelude::*;

verus! {

/// Divides each element of a vector by a positive scalar, rounding to the
/// nearest integer after scaling by the output scale factor; the second
/// output is the remainder that accounts for the rounding.
#[derive(Debug)]
pub struct DivScalarBasicBlock {
    pub output_SF: usize,
}

/// Whether an integer fits in an `i64`.
pub open spec fn fits_i64(x: int) -> bool {
    i64::MIN <= x <= i64::MAX
}

/// The integer an element stands for, cut to 64 bits.
pub open spec fn as_i64(x: Fe) -> int {
    (signed_value(x@) as i64) as int
}

/// The scaled and rounded numerator `2 x SF + y` of a division of `x` by `y`,
/// with every intermediate result within 64 bits.
pub open spec fn div_fits(x: int, sf: int, y: int) -> bool {
    fits_i64(2 * x) && fits_i64(2 * x * sf) && fits_i64(2 * x * sf + y)
}

/// The inputs the division accepts: a vector and a single positive divisor,
/// with numerators that fit in 64 bits.
pub open spec fn div_scalar_accepts(inputs: Seq<Tensor<Fe>>, sf: int) -> bool {
    &&& inputs.len() == 2
    &&& inputs[0].ndim() == 1
    &&& inputs[1].data@.len() == 1
    &&& fits_i128(signed_value(inputs[1].data@[0]@))
    &&& as_i64(inputs[1].data@[0]) > 0
    &&& fits_i64(2 * as_i64(inputs[1].data@[0]))
    &&& forall|i: int|
        0 <= i < inputs[0].data@.len() ==> fits_i128(signed_value(#[trigger] inputs[0].data@[i]@))
            && div_fits(as_i64(inputs[0].data@[i]), sf, as_i64(inputs[1].data@[0]))
}

/// Division that rounds towards zero recovers the dividend, with a
/// remainder of the dividend's sign and below the divisor in size.
proof fn lemma_trunc_div(num: int, den: int)
    requires
        den > 0,
    ensures
        ({
            let q = if num >= 0 {
                num / den
            } else {
                -((-num) / den)
            };
            let r = if num >= 0 {
                num % den
            } else {
                -((-num) % den)
            };
            q * den + r == num && -den < r < den && (num >= 0 ==> r >= 0) && (num < 0 ==> r <= 0)
        }),
{
    if num >= 0 {
        vstd::arithmetic::div_mod::lemma_fundamental_div_mod(num, den);
        vstd::arithmetic::div_mod::lemma_mod_pos_bound(num, den);
        assert((num / den) * den == den * (num / den)) by (nonlinear_arith);
    } else {
        let a = -num;
        vstd::arithmetic::div_mod::lemma_fundamental_div_mod(a, den);
        vstd::arithmetic::div_mod::lemma_mod_pos_bound(a, den);
        assert(-(a / den) * den == -(den * (a / den))) by (nonlinear_arith);
    }
}

impl DivScalarBasicBlock {
    /// For each `x`, the quotient `floor((2 x SF + y) / (2 y))` and the
    /// remainder `(2 x SF + y) mod 2 y`, which lies in `[0, 2 y)`.
    pub fn run(&self, _model: &Tensor<Fe>, inputs: &Vec<Tensor<Fe>>) -> (r: Vec<Tensor<Fe>>)
        requires
            div_scalar_accepts(inputs@, (self.output_SF as i64) as int),
        ensures
            r@.len() == 2,
            r@[0].wf() && r@[1].wf(),
            r@[0].shape@ == seq![inputs@[0].data@.len() as usize],
            r@[1].shape@ == seq![inputs@[0].data@.len() as usize],
            forall|i: int|
                0 <= i < inputs@[0].data@.len() ==> {
                    let x = as_i64(#[trigger] inputs@[0].data@[i]);
                    let y = as_i64(inputs@[1].data@[0]);
                    let sf = (self.output_SF as i64) as int;
                    &&& r@[0].data@[i]@ == int_to_field((2 * x * sf + y) / (2 * y))
                    &&& r@[1].data@[i]@ == int_to_field((2 * x * sf + y) % (2 * y))
                },
    {
        let sf = self.output_SF as i64;
        let y = fr_to_int(&inputs[1].data[0]) as i64;
        let xs = &inputs[0].data;
        let mut div: Vec<Fe> = Vec::new();
        let mut rem: Vec<Fe> = Vec::new();
        let mut i: usize = 0;
        while i < xs.len()
            invariant
                div_scalar_accepts(inputs@, sf as int),
                xs@ == inputs@[0].data@,
                y as int == as_i64(inputs@[1].data@[0]),
                i <= xs.len(),
                div@.len() == i,
                rem@.len() == i,
                forall|k: int|
                    0 <= k < i ==> {
                        let x = as_i64(#[trigger] xs@[k]);
                        &&& div@[k]@ == int_to_field((2 * x * sf + y) / (2 * y))
                        &&& rem@[k]@ == int_to_field((2 * x * sf + y) % (2 * y))
                    },
            decreases xs.len() - i,
        {
            assert(fits_i128(signed_value(xs@[i as int]@)) && div_fits(as_i64(xs@[i as int]), sf as int, y as int));
            let x = fr_to_int(&xs[i]) as i64;
            let num = 2 * x * sf + y;
            let den = 2 * y;
            let mut z = num / den;
            let mut r = num % den;
            proof {
                assert(z as int == (if num >= 0 {
                    (num as int) / (den as int)
                } else {
                    -((-num) as int / (den as int))
                }));
                assert(r as int == (if num >= 0 {
                    (num as int) % (den as int)
                } else {
                    -((-num) as int % (den as int))
                }));
                lemma_trunc_div(num as int, den as int);
            }
            let ghost z0 = z;
            let ghost r0 = r;
            if r < 0 {
                z = z - 1;
                r = r + den;
            }
            proof {
                assert(z * den + r == num && 0 <= r < den) by (nonlinear_arith)
                    requires
                        z0 * den + r0 == num,
                        -den < r0 < den,
                        r0 < 0 ==> z == z0 - 1 && r == r0 + den,
                        r0 >= 0 ==> z == z0 && r == r0,
                ;
                vstd::arithmetic::div_mod::lemma_fundamental_div_mod_converse(
                    num as int,
                    den as int,
                    z as int,
                    r as int,
                );
            }
            div.push(Fe::from_i64(z));
            rem.push(Fe::from_i64(r));
            i = i + 1;
        }
        let mut out: Vec<Tensor<Fe>> = Vec::new();
        out.push(vec_tensor(div));
        out.push(vec_tensor(rem));
        out
    }
}

} // verus!

verus! {

/// Reduces each element modulo a constant, after taking the signed integer
/// it stands for to 32 bits.
#[derive(Debug)]
pub struct ModConstBasicBlock {
    pub c: u32,
}

impl ModConstBasicBlock {
    pub fn run(&self, _model: &Tensor<Fe>, inputs: &Vec<Tensor<Fe>>) -> (r: Vec<Tensor<Fe>>)
        requires
            inputs@.len() == 1,
            inputs@[0].wf(),
            self.c > 0,
            forall|i: int|
                0 <= i < inputs@[0].data@.len() ==> fits_i128(signed_value(#[trigger] inputs@[0].data@[i]@)),
        ensures
            r@.len() == 1,
            r@[0].wf(),
            r@[0].shape@ == inputs@[0].shape@,
            r@[0].data@.len() == inputs@[0].data@.len(),
            forall|i: int|
                0 <= i < inputs@[0].data@.len() ==> #[trigger] r@[0].data@[i]@ == ((signed_value(
                    inputs@[0].data@[i]@,
                ) as u32) as nat) % (self.c as nat),
    {
        let xs = &inputs[0].data;
        let mut data: Vec<Fe> = Vec::new();
        let mut i: usize = 0;
        while i < xs.len()
            invariant
                self.c > 0,
                xs@ == inputs@[0].data@,
                forall|k: int| 0 <= k < xs@.len() ==> fits_i128(signed_value(#[trigger] xs@[k]@)),
                i <= xs.len(),
                data@.len() == i,
                forall|k: int|
                    0 <= k < i ==> #[trigger] data@[k]@ == ((signed_value(xs@[k]@) as u32) as nat) % (
                    self.c as nat),
            decreases xs.len() - i,
        {
            assert(fits_i128(signed_value(xs@[i as int]@)));
            let x = fr_to_int(&xs[i]) as u32;
            let m = x % self.c;
            data.push(Fe::from_u64(m as u64));
            i = i + 1;
        }
        let mut out: Vec<Tensor<Fe>> = Vec::new();
        out.push(Tensor { shape: super::copy_shape(&inputs[0].shape), data });
        out
    }
}

} // verus!

verus! {

/// The quotient that the scalar division gives, `(2 x sf + y) / (2 y)`, is
/// `x * sf / y` rounded to the nearest integer (halves rounded up): it is
/// off by at most half of `y` after scaling back, and the remainder lies in
/// `[0, 2 y)`.
pub proof fn div_scalar_rounds_to_nearest(x: int, sf: int, y: int)
    requires
        y > 0,
    ensures
        ({
            let q = (2 * x * sf + y) / (2 * y);
            let r = (2 * x * sf + y) % (2 * y);
            &&& q * (2 * y) + r == 2 * x * sf + y
            &&& 0 <= r < 2 * y
            &&& -y <= 2 * (x * sf - q * y) < y
        }),
{
    let n = 2 * x * sf + y;
    let d = 2 * y;
    vstd::arithmetic::div_mod::lemma_fundamental_div_mod(n, d);
    vstd::arithmetic::div_mod::lemma_mod_bound(n, d);
    let q = n / d;
    let r = n % d;
    assert(q * (2 * y) + r == n) by (nonlinear_arith)
        requires
            n == d * q + r,
            d == 2 * y,
    ;
    assert(2 * (x * sf - q * y) == r - y) by (nonlinear_arith)
        requires
            n == d * q + r,
            n == 2 * x * sf + y,
            d == 2 * y,
    ;
}

} // verus!
