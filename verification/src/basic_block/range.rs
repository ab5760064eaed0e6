//! Arithmetic progressions: `start, start + delta, ...` while below a limit.
use super::vec_tensor;
use crate::field::{fits_i128, fr_to_int, int_to_field, signed_value, Fe};
use crate::tensor::Tensor;
use vstd::prelude::*;

verus! {

/// The progression up to a constant limit.
#[derive(Debug)]
pub struct RangeConstBasicBlock {
    pub start: i32,
    pub limit: i32,
    pub delta: i32,
}

/// The progression up to a limit given as an input.
#[derive(Debug)]
pub struct RangeBasicBlock {
    pub start: i32,
    pub delta: i32,
}

/// How many terms `start + k * delta` lie below `limit`.
pub open spec fn range_count(start: int, limit: int, delta: int) -> nat {
    if start < limit && delta > 0 {
        ((limit - start + delta - 1) / delta) as nat
    } else {
        0
    }
}

/// A progression is finite and its last step stays within 32 bits.
pub open spec fn range_ok(start: int, limit: int, delta: int) -> bool {
    start < limit ==> (delta > 0 && start + range_count(start, limit, delta) * delta <= i32::MAX)
}

/// The elements a progression consists of.
pub open spec fn range_output(r: Seq<Fe>, start: int, limit: int, delta: int) -> bool {
    &&& r.len() == range_count(start, limit, delta)
    &&& forall|k: int| 0 <= k < r.len() ==> #[trigger] r[k]@ == int_to_field(start + k * delta)
}

proof fn lemma_range_count(start: int, limit: int, delta: int, k: int)
    requires
        start < limit,
        delta > 0,
        0 <= k,
    ensures
        k < range_count(start, limit, delta) <==> start + k * delta < limit,
{
    let d = limit - start;
    let c = (d + delta - 1) / delta;
    vstd::arithmetic::div_mod::lemma_fundamental_div_mod(d + delta - 1, delta);
    vstd::arithmetic::div_mod::lemma_mod_pos_bound(d + delta - 1, delta);
    assert(c * delta >= d && (c - 1) * delta < d) by (nonlinear_arith)
        requires
            d + delta - 1 == delta * c + (d + delta - 1) % delta,
            0 <= (d + delta - 1) % delta < delta,
    ;
    assert(c >= 0) by (nonlinear_arith)
        requires
            c * delta >= d,
            d > 0,
            delta > 0,
    ;
    if k < c {
        assert(k * delta <= (c - 1) * delta) by (nonlinear_arith)
            requires
                k < c,
                delta > 0,
        ;
    } else {
        assert(k * delta >= c * delta) by (nonlinear_arith)
            requires
                k >= c,
                delta > 0,
        ;
    }
}

/// The terms `start + k * delta` below `limit`.
fn progression(start: i32, limit: i32, delta: i32) -> (r: Vec<Fe>)
    requires
        range_ok(start as int, limit as int, delta as int),
    ensures
        range_output(r@, start as int, limit as int, delta as int),
{
    let mut r: Vec<Fe> = Vec::new();
    let mut x = start;
    let ghost n = range_count(start as int, limit as int, delta as int);
    while x < limit
        invariant
            range_ok(start as int, limit as int, delta as int),
            n == range_count(start as int, limit as int, delta as int),
            x as int == start + r@.len() * delta,
            start < limit ==> r@.len() <= n,
            start >= limit ==> r@.len() == 0,
            forall|k: int| 0 <= k < r@.len() ==> #[trigger] r@[k]@ == int_to_field(start + k * delta),
        decreases n - r@.len(),
    {
        proof {
            lemma_range_count(start as int, limit as int, delta as int, r@.len() as int);
            assert((r@.len() + 1) * delta <= n * delta) by (nonlinear_arith)
                requires
                    r@.len() < n,
                    delta > 0,
            ;
            assert((r@.len() + 1) * delta == r@.len() * delta + delta) by (nonlinear_arith);
        }
        r.push(Fe::from_i64(x as i64));
        x = x + delta;
    }
    proof {
        if start < limit {
            lemma_range_count(start as int, limit as int, delta as int, r@.len() as int);
        }
    }
    r
}

impl RangeConstBasicBlock {
    pub fn run(&self, _model: &Tensor<Fe>, _inputs: &Vec<Tensor<Fe>>) -> (r: Vec<Tensor<Fe>>)
        requires
            range_ok(self.start as int, self.limit as int, self.delta as int),
        ensures
            r@.len() == 1,
            r@[0].wf(),
            r@[0].shape@ == seq![r@[0].data@.len() as usize],
            range_output(r@[0].data@, self.start as int, self.limit as int, self.delta as int),
    {
        let data = progression(self.start, self.limit, self.delta);
        let mut out: Vec<Tensor<Fe>> = Vec::new();
        out.push(vec_tensor(data));
        out
    }
}

/// The limit a progression reads from its input, cut to 32 bits.
pub open spec fn input_limit(x: Fe) -> int {
    (signed_value(x@) as i32) as int
}

impl RangeBasicBlock {
    pub fn run(&self, _model: &Tensor<Fe>, inputs: &Vec<Tensor<Fe>>) -> (r: Vec<Tensor<Fe>>)
        requires
            inputs@.len() == 1,
            inputs@[0].ndim() == 1,
            inputs@[0].data@.len() >= 1,
            fits_i128(signed_value(inputs@[0].data@[0]@)),
            range_ok(self.start as int, input_limit(inputs@[0].data@[0]), self.delta as int),
        ensures
            r@.len() == 1,
            r@[0].wf(),
            r@[0].shape@ == seq![r@[0].data@.len() as usize],
            range_output(
                r@[0].data@,
                self.start as int,
                input_limit(inputs@[0].data@[0]),
                self.delta as int,
            ),
    {
        let limit = fr_to_int(&inputs[0].data[0]) as i32;
        let data = progression(self.start, limit, self.delta);
        let mut out: Vec<Tensor<Fe>> = Vec::new();
        out.push(vec_tensor(data));
        out
    }
}

} // verus!
