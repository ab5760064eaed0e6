//! Maximum of a tensor. Elements at or above a bound stand for negative
//! numbers and never win against the starting value.
use super::{scalar_sub, small_bound, vec_tensor};
use crate::field::{fsub, int_to_field, modulus, Fe};
use crate::tensor::Tensor;
use vstd::prelude::*;

verus! {

/// The maximum of a tensor, among the elements below the bound.
#[derive(Debug)]
pub struct MaxBasicBlock;

/// The maximum of a vector, and the difference of the maximum and each
/// element.
#[derive(Debug)]
pub struct MaxProofBasicBlock;

/// The maximum of a vector, and the difference of the maximum and each
/// element.
#[derive(Debug)]
pub struct MaxV1BasicBlock;

/// One step of the maximum from zero: an element below the bound and above
/// the current maximum replaces it.
pub open spec fn max_step(m: nat, x: nat) -> nat {
    if x < small_bound() && x > m {
        x
    } else {
        m
    }
}

/// The maximum from zero of the first `k` elements.
pub open spec fn max_fold(s: Seq<Fe>, k: nat) -> nat
    decreases k,
{
    if k == 0 {
        0
    } else {
        max_step(max_fold(s, (k - 1) as nat), s[k - 1]@)
    }
}

/// Runs the maximum from zero over a sequence.
fn fold_max(xs: &Vec<Fe>) -> (r: Fe)
    ensures
        r@ == max_fold(xs@, xs@.len()),
{
    let bound = Fe::from_u64(268435456);
    let mut m = Fe::zero();
    let mut i: usize = 0;
    while i < xs.len()
        invariant
            bound@ == small_bound(),
            i <= xs.len(),
            m@ == max_fold(xs@, i as nat),
        decreases xs.len() - i,
    {
        if xs[i].lt(&bound) && m.lt(&xs[i]) {
            m = xs[i];
        }
        i = i + 1;
    }
    m
}

impl MaxBasicBlock {
    pub fn run(&self, _model: &Tensor<Fe>, inputs: &Vec<Tensor<Fe>>) -> (r: Vec<Tensor<Fe>>)
        requires
            inputs@.len() == 1,
        ensures
            r@.len() == 1,
            r@[0].wf(),
            r@[0].shape@ == seq![1usize],
            r@[0].data@[0]@ == max_fold(inputs@[0].data@, inputs@[0].data@.len()),
    {
        let m = fold_max(&inputs[0].data);
        let mut data: Vec<Fe> = Vec::new();
        data.push(m);
        let mut out: Vec<Tensor<Fe>> = Vec::new();
        out.push(vec_tensor(data));
        out
    }
}

impl MaxV1BasicBlock {
    /// The maximum, and the maximum minus each element.
    pub fn run(&self, _model: &Tensor<Fe>, inputs: &Vec<Tensor<Fe>>) -> (r: Vec<Tensor<Fe>>)
        requires
            inputs@.len() == 1,
            inputs@[0].wf(),
            inputs@[0].ndim() == 1,
        ensures
            r@.len() == 2,
            r@[0].wf(),
            r@[0].shape@ == seq![1usize],
            r@[0].data@[0]@ == max_fold(inputs@[0].data@, inputs@[0].data@.len()),
            r@[1].wf(),
            r@[1].shape@ == inputs@[0].shape@,
            r@[1].data@.len() == inputs@[0].data@.len(),
            forall|i: int|
                0 <= i < inputs@[0].data@.len() ==> #[trigger] r@[1].data@[i]@ == fsub(
                    r@[0].data@[0]@,
                    inputs@[0].data@[i]@,
                ),
    {
        let m = fold_max(&inputs[0].data);
        let diff = scalar_sub(&m, &inputs[0].data);
        let mut data: Vec<Fe> = Vec::new();
        data.push(m);
        let mut out: Vec<Tensor<Fe>> = Vec::new();
        out.push(vec_tensor(data));
        out.push(Tensor { shape: super::copy_shape(&inputs[0].shape), data: diff });
        out
    }
}

/// One step of the signed maximum, where elements at or above `top` stand
/// for negative numbers: a non-negative element beats a smaller
/// non-negative maximum or any negative one, and a negative element beats a
/// smaller negative maximum.
pub open spec fn signed_max_step(m: nat, y: nat, top: nat) -> nat {
    if (y < top && y > m) || (m > top && y < top) || (y > top && m > top && y > m) {
        y
    } else {
        m
    }
}

/// The signed maximum of the first `k` elements, starting from `start`.
pub open spec fn signed_max_fold(s: Seq<Fe>, k: nat, start: nat, top: nat) -> nat
    decreases k,
{
    if k == 0 {
        start
    } else {
        signed_max_step(signed_max_fold(s, (k - 1) as nat, start, top), s[k - 1]@, top)
    }
}

impl MaxProofBasicBlock {
    /// The signed maximum of a vector whose values lie in the lookup range
    /// starting at `cq_range_lower`, and the maximum minus each element. The
    /// maximum starts from the bottom of the range, and elements at or above
    /// the element standing for `-cq_range_lower` count as negative.
    pub fn run(&self, _model: &Tensor<Fe>, inputs: &Vec<Tensor<Fe>>, cq_range_lower: i64) -> (r: Vec<Tensor<Fe>>)
        requires
            inputs@.len() == 1,
            inputs@[0].wf(),
            inputs@[0].ndim() == 1,
            cq_range_lower > i64::MIN,
        ensures
            r@.len() == 2,
            r@[0].wf(),
            r@[0].shape@ == seq![1usize],
            r@[0].data@[0]@ == signed_max_fold(
                inputs@[0].data@,
                inputs@[0].data@.len(),
                int_to_field(cq_range_lower as int),
                int_to_field(-cq_range_lower),
            ),
            r@[1].wf(),
            r@[1].shape@ == inputs@[0].shape@,
            r@[1].data@.len() == inputs@[0].data@.len(),
            forall|i: int|
                0 <= i < inputs@[0].data@.len() ==> #[trigger] r@[1].data@[i]@ == fsub(
                    r@[0].data@[0]@,
                    inputs@[0].data@[i]@,
                ),
    {
        let xs = &inputs[0].data;
        let top = Fe::from_i64(-cq_range_lower);
        let start = Fe::from_i64(cq_range_lower);
        let mut m = start;
        let mut i: usize = 0;
        while i < xs.len()
            invariant
                i <= xs.len(),
                m@ == signed_max_fold(xs@, i as nat, start@, top@),
            decreases xs.len() - i,
        {
            let y = xs[i];
            if (y.lt(&top) && m.lt(&y)) || (top.lt(&m) && y.lt(&top)) || (top.lt(&y) && top.lt(&m)
                && m.lt(&y)) {
                m = y;
            }
            i = i + 1;
        }
        let diff = scalar_sub(&m, xs);
        let mut data: Vec<Fe> = Vec::new();
        data.push(m);
        let mut out: Vec<Tensor<Fe>> = Vec::new();
        out.push(vec_tensor(data));
        out.push(Tensor { shape: super::copy_shape(&inputs[0].shape), data: diff });
        out
    }
}

} // verus!

verus! {

/// The maximum from zero is at least every element below the bound, and it
/// is zero or one of the elements.
pub proof fn max_fold_is_greatest(s: Seq<Fe>, k: nat)
    requires
        k <= s.len(),
    ensures
        forall|i: int| 0 <= i < k && (#[trigger] s[i])@ < small_bound() ==> s[i]@ <= max_fold(s, k),
        max_fold(s, k) == 0 || exists|i: int| 0 <= i < k && (#[trigger] s[i])@ == max_fold(s, k),
        max_fold(s, k) < small_bound(),
    decreases k,
{
    if k > 0 {
        max_fold_is_greatest(s, (k - 1) as nat);
        if max_fold(s, k) != max_fold(s, (k - 1) as nat) {
            assert(s[k - 1]@ == max_fold(s, k));
        } else if max_fold(s, k) != 0 {
            let i = choose|i: int| 0 <= i < k - 1 && (#[trigger] s[i])@ == max_fold(s, (k - 1) as nat);
            assert(s[i]@ == max_fold(s, k));
        }
    }
}

/// The order in which the signed maximum compares elements: those below
/// `top` (non-negative numbers) come above those above it (negative ones),
/// and each group keeps the order of its values.
pub open spec fn signed_key(y: nat, top: nat) -> nat {
    if y < top {
        y + modulus()
    } else {
        y
    }
}

/// The signed maximum is the greatest of the start and the elements in the
/// signed order, and is the start or one of the elements; no element (nor
/// the start) may be `top` itself, which the comparison leaves out.
pub proof fn signed_max_is_greatest(s: Seq<Fe>, k: nat, start: nat, top: nat)
    requires
        k <= s.len(),
        start != top,
        start < modulus(),
        forall|i: int| 0 <= i < k ==> (#[trigger] s[i])@ != top && s[i]@ < modulus(),
    ensures
        forall|i: int| 0 <= i < k ==> signed_key((#[trigger] s[i])@, top) <= signed_key(signed_max_fold(s, k, start, top), top),
        signed_key(start, top) <= signed_key(signed_max_fold(s, k, start, top), top),
        signed_max_fold(s, k, start, top) == start || exists|i: int|
            0 <= i < k && (#[trigger] s[i])@ == signed_max_fold(s, k, start, top),
    decreases k,
{
    if k > 0 {
        signed_max_is_greatest(s, (k - 1) as nat, start, top);
        let m = signed_max_fold(s, (k - 1) as nat, start, top);
        let y = s[k - 1]@;
        assert(m != top && m < modulus());
        assert(y != top && y < modulus());
        let r = signed_max_fold(s, k, start, top);
        assert(r == signed_max_step(m, y, top));
        assert(signed_key(r, top) >= signed_key(m, top) && signed_key(r, top) >= signed_key(y, top));
        if signed_max_fold(s, k, start, top) == y {
            assert(s[k - 1]@ == signed_max_fold(s, k, start, top));
        } else if m != start {
            let i = choose|i: int| 0 <= i < k - 1 && (#[trigger] s[i])@ == m;
            assert(s[i]@ == signed_max_fold(s, k, start, top));
        }
    }
}

} // verus!
