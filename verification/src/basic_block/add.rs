//! Addition: of two vectors (one of them may be a single element, which is
//! added to every element of the other), of several vectors, and of the
//! slices of a tensor along one axis.
use super::{add_elementwise, add_scalar, lemma_vec_shape_size, vec_tensor, CQOutOfRangeError};
use super::data::{enc_point, DataEnc};
use crate::curve::{g1_add, g1_add_at, g1_eq_at, g1_same_point, g1_sum_upto, G1};
use crate::field::{fadd, fsub, modulus, Fe, fe_add};
use vstd::arithmetic::div_mod::lemma_sub_mod_noop;
use crate::tensor::{lemma_size_split, lemma_skip_size, prefix_size, shape_size, suffix_size, suffix_sizes_fit, Tensor};
use vstd::prelude::*;

verus! {

/// Adds two vectors.
#[derive(Debug)]
pub struct AddBasicBlock;

/// The inputs an addition accepts: two tensors of at most one dimension,
/// where a single-element first input is added to each element of a
/// non-empty vector, a single-element second input to each element of a
/// non-empty vector, and otherwise the two vectors have the same length.
pub open spec fn add_accepts(inputs: Seq<Tensor<Fe>>) -> bool {
    &&& inputs.len() == 2
    &&& inputs[0].wf() && inputs[1].wf()
    &&& inputs[0].ndim() <= 1 && inputs[1].ndim() <= 1
    &&& {
        let (a, b) = (inputs[0], inputs[1]);
        if a.data@.len() == 1 && b.ndim() > 0 {
            b.data@.len() >= 1
        } else if b.data@.len() == 1 {
            a.ndim() == 1 && a.data@.len() >= 1
        } else {
            a.ndim() == 1 && b.ndim() == 1 && a.data@.len() == b.data@.len()
        }
    }
}

/// The sum an addition gives: one vector whose elements are the pairwise
/// sums, with a single-element input standing for every position.
pub open spec fn add_output(a: Tensor<Fe>, b: Tensor<Fe>, r: Tensor<Fe>) -> bool {
    &&& r.wf()
    &&& if a.data@.len() == 1 && b.ndim() > 0 {
        &&& r.shape@ == seq![b.data@.len() as usize]
        &&& forall|i: int| 0 <= i < b.data@.len() ==> #[trigger] r.data@[i]@ == fadd(b.data@[i]@, a.data@[0]@)
    } else if b.data@.len() == 1 {
        &&& r.shape@ == seq![a.data@.len() as usize]
        &&& forall|i: int| 0 <= i < a.data@.len() ==> #[trigger] r.data@[i]@ == fadd(a.data@[i]@, b.data@[0]@)
    } else {
        &&& r.shape@ == seq![a.data@.len() as usize]
        &&& forall|i: int| 0 <= i < a.data@.len() ==> #[trigger] r.data@[i]@ == fadd(a.data@[i]@, b.data@[i]@)
    }
}

/// The element a vector contributes at position `i`: its only one when it
/// has a single element, its own otherwise.
pub open spec fn elem_at(t: Tensor<Fe>, i: int) -> nat {
    if t.data@.len() == 1 {
        t.data@[0]@
    } else {
        t.data@[i]@
    }
}

/// Subtracting one addend takes a sum back to the other.
proof fn lemma_add_then_sub(x: nat, y: nat)
    ensures
        fsub(fadd(x, y), y) == x % modulus(),
        fsub(fadd(y, x), y) == x % modulus(),
{
    let p = modulus() as int;
    let (xi, yi) = (x as int, y as int);
    let u = (xi + yi) % p;
    assert(fadd(x, y) == u && fadd(y, x) == u);
    lemma_sub_mod_noop(xi + yi, yi, p);
    vstd::arithmetic::div_mod::lemma_sub_mod_noop_right(u, yi, p);
    assert(xi + yi - yi == xi);
}

/// The number of elements of a sum: the length of the second input when a
/// single-element first input is added to it, of the first otherwise.
pub open spec fn sum_len(a: Tensor<Fe>, b: Tensor<Fe>) -> nat {
    if a.data@.len() == 1 && b.ndim() > 0 {
        b.data@.len()
    } else {
        a.data@.len()
    }
}

/// An addition is undone by subtraction: at every position of the sum,
/// taking away the second input's element there (its only one if it has a
/// single element) gives back the first input's.
pub proof fn law_add_undone_by_sub(a: Tensor<Fe>, b: Tensor<Fe>, r: Tensor<Fe>)
    requires
        add_output(a, b, r),
    ensures
        forall|i: int| 0 <= i < sum_len(a, b) ==> fsub(#[trigger] r.data@[i]@, elem_at(b, i)) == elem_at(a, i) % modulus(),
{
    assert forall|i: int| 0 <= i < sum_len(a, b) implies fsub(#[trigger] r.data@[i]@, elem_at(b, i)) == elem_at(a, i)
        % modulus() by {
        lemma_add_then_sub(elem_at(a, i), elem_at(b, i));
    }
}

impl AddBasicBlock {
    pub fn run(&self, _model: &Tensor<Fe>, inputs: &Vec<Tensor<Fe>>) -> (r: Result<Vec<Tensor<Fe>>, CQOutOfRangeError>)
        requires
            add_accepts(inputs@),
        ensures
            r matches Ok(out) && out@.len() == 1 && add_output(inputs@[0], inputs@[1], out@[0]),
    {
        let a = &inputs[0];
        let b = &inputs[1];
        let data = if a.data.len() == 1 && b.shape.len() > 0 {
            add_scalar(&b.data, &a.data[0])
        } else if b.data.len() == 1 {
            add_scalar(&a.data, &b.data[0])
        } else {
            add_elementwise(&a.data, &b.data)
        };
        let t = vec_tensor(data);
        let mut out: Vec<Tensor<Fe>> = Vec::new();
        out.push(t);
        Ok(out)
    }
}

/// Adds any number of vectors of one length.
#[derive(Debug)]
pub struct MultipleAddBasicBlock;

/// The sum of the elements at position `j` of the first `k` inputs.
pub open spec fn column_sum(inputs: Seq<Tensor<Fe>>, j: int, k: nat) -> nat
    decreases k,
{
    if k == 0 {
        0
    } else {
        fadd(column_sum(inputs, j, (k - 1) as nat), inputs[k - 1].data@[j]@)
    }
}

/// The inputs a sum of several vectors accepts: at least one input, all of
/// them vectors of the first one's length.
pub open spec fn multiple_add_accepts(inputs: Seq<Tensor<Fe>>) -> bool {
    &&& inputs.len() >= 1
    &&& forall|i: int|
        0 <= i < inputs.len() ==> #[trigger] inputs[i].wf() && inputs[i].shape@.len() == 1
            && inputs[i].shape@[0] == inputs[0].data@.len()
}

impl MultipleAddBasicBlock {
    pub fn run(&self, _model: &Tensor<Fe>, inputs: &Vec<Tensor<Fe>>) -> (r: Result<Vec<Tensor<Fe>>, CQOutOfRangeError>)
        requires
            multiple_add_accepts(inputs@),
        ensures
            r matches Ok(out) && out@.len() == 1 && out@[0].wf() && out@[0].shape@ == inputs@[0].shape@
                && forall|j: int|
                0 <= j < inputs@[0].data@.len() ==> #[trigger] out@[0].data@[j]@ == column_sum(
                    inputs@,
                    j,
                    inputs@.len() as nat,
                ),
    {
        let n = inputs[0].data.len();
        let mut acc: Vec<Fe> = Vec::new();
        let mut j: usize = 0;
        while j < n
            invariant
                j <= n,
                acc@.len() == j,
                forall|k: int| 0 <= k < j ==> (#[trigger] acc@[k])@ == 0,
            decreases n - j,
        {
            acc.push(Fe::zero());
            j = j + 1;
        }
        let mut i: usize = 0;
        while i < inputs.len()
            invariant
                multiple_add_accepts(inputs@),
                n == inputs@[0].data@.len(),
                i <= inputs.len(),
                acc@.len() == n,
                forall|k: int| 0 <= k < n ==> #[trigger] acc@[k]@ == column_sum(inputs@, k, i as nat),
            decreases inputs.len() - i,
        {
            assert(inputs@[i as int].wf() && inputs@[i as int].shape@.len() == 1);
            assert(inputs@[i as int].shape@ =~= seq![n]);
            proof {
                lemma_vec_shape_size(n);
            }
            acc = add_elementwise(&acc, &inputs[i].data);
            i = i + 1;
        }
        let t = vec_tensor(acc);
        let mut out: Vec<Tensor<Fe>> = Vec::new();
        out.push(t);
        proof {
            assert(inputs@[0].wf() && inputs@[0].shape@.len() == 1);
            assert(inputs@[0].shape@ =~= seq![n]);
        }
        Ok(out)
    }
}

/// Adds the slices of a tensor along one axis, keeping that axis with
/// length one.
#[derive(Debug)]
pub struct AddAlongAxisBasicBlock {
    pub axis: usize,
}

/// The sum over the first `k` positions along the axis, at outer position `o`
/// and inner position `n`, of data laid out as `outer × len × inner`.
pub open spec fn axis_sum(data: Seq<Fe>, len: nat, inner: nat, o: int, n: int, k: nat) -> nat
    decreases k,
{
    if k == 0 {
        0
    } else {
        fadd(axis_sum(data, len, inner, o, n, (k - 1) as nat), data[(o * len + (k - 1)) * inner + n]@)
    }
}

/// The input a sum along an axis accepts: one tensor, the axis not its last
/// one, with sizes that fit in memory.
pub open spec fn add_along_axis_accepts(inputs: Seq<Tensor<Fe>>, axis: usize) -> bool {
    &&& inputs.len() == 1
    &&& inputs[0].wf()
    &&& axis + 1 < inputs[0].ndim()
    &&& suffix_sizes_fit(inputs[0].shape@)
    &&& suffix_sizes_fit(inputs[0].shape@.update(axis as int, 1))
    &&& forall|j: int|
        0 <= j <= axis ==> #[trigger] shape_size(inputs[0].shape@.take(j)) <= usize::MAX
}

impl AddAlongAxisBasicBlock {
    pub fn run(&self, _model: &Tensor<Fe>, inputs: &Vec<Tensor<Fe>>) -> (r: Result<Vec<Tensor<Fe>>, CQOutOfRangeError>)
        requires
            add_along_axis_accepts(inputs@, self.axis),
        ensures
            r matches Ok(out) && out@.len() == 1 && {
                let s = inputs@[0].shape@;
                let a = self.axis as int;
                let outer = shape_size(s.take(a));
                let len = s[a] as nat;
                let inner = shape_size(s.skip(a + 1));
                &&& out@[0].wf()
                &&& out@[0].shape@ == s.update(a, 1)
                &&& forall|o: int, n: int|
                    0 <= o < outer && 0 <= n < inner ==> #[trigger] out@[0].data@[o * inner + n]@
                        == axis_sum(inputs@[0].data@, len, inner, o, n, len)
            },
    {
        let t = &inputs[0];
        let a = self.axis;
        let nd = t.shape.len();
        assert(a + 1 < nd);
        let nd = t.shape.len();
        assert(a < nd);
        let len = t.shape[a];
        let dlen = t.data.len();
        let inner = suffix_size(&t.shape, a + 1);
        let outer = prefix_size(&t.shape, a);
        let ghost s = t.shape@;
        let dlen = t.data.len();
        proof {
            lemma_size_split(s, a as int);
            lemma_skip_size(s, a as int);
        }
        let mut data: Vec<Fe> = Vec::new();
        let mut o: usize = 0;
        while o < outer
            invariant
                t.wf(),
                s == t.shape@,
                outer == shape_size(s.take(a as int)),
                inner == shape_size(s.skip(a + 1)),
                len == s[a as int],
                t.data@.len() == outer * (len * inner),
                dlen == t.data@.len(),
                o <= outer,
                data@.len() == o * inner,
                forall|o2: int, n2: int|
                    0 <= o2 < o && 0 <= n2 < inner ==> #[trigger] data@[o2 * inner + n2]@ == axis_sum(
                        t.data@,
                        len as nat,
                        inner as nat,
                        o2,
                        n2,
                        len as nat,
                    ),
            decreases outer - o,
        {
            let mut n: usize = 0;
            while n < inner
                invariant
                    t.wf(),
                    outer == shape_size(s.take(a as int)),
                    t.data@.len() == outer * (len * inner),
                    dlen == t.data@.len(),
                    o < outer,
                    n <= inner,
                    data@.len() == o * inner + n,
                    forall|o2: int, n2: int|
                        0 <= o2 < o && 0 <= n2 < inner ==> #[trigger] data@[o2 * inner + n2]@
                            == axis_sum(t.data@, len as nat, inner as nat, o2, n2, len as nat),
                    forall|n2: int|
                        0 <= n2 < n ==> #[trigger] data@[o * inner + n2]@ == axis_sum(
                            t.data@,
                            len as nat,
                            inner as nat,
                            o as int,
                            n2,
                            len as nat,
                        ),
                decreases inner - n,
            {
                let mut sum = Fe::zero();
                let mut i: usize = 0;
                while i < len
                    invariant
                        t.data@.len() == outer * (len * inner),
                        dlen == t.data@.len(),
                        o < outer,
                        n < inner,
                        i <= len,
                        sum@ == axis_sum(t.data@, len as nat, inner as nat, o as int, n as int, i as nat),
                    decreases len - i,
                {
                    proof {
                        assert((o * len + i) * inner + n < outer * (len * inner)) by (nonlinear_arith)
                            requires
                                o < outer,
                                i < len,
                                n < inner,
                        ;
                        assert(o * len + i <= (o * len + i) * inner) by (nonlinear_arith)
                            requires
                                n < inner,
                        ;
                        assert(o * len <= o * len + i);
                    }
                    sum = fe_add(&sum, &t.data[(o * len + i) * inner + n]);
                    i = i + 1;
                }
                proof {
                    assert(o * inner + n < outer * inner) by (nonlinear_arith)
                        requires
                            o < outer,
                            n < inner,
                    ;
                }
                data.push(sum);
                proof {
                    assert forall|o2: int, n2: int|
                        0 <= o2 < o && 0 <= n2 < inner implies #[trigger] data@[o2 * inner + n2]@
                            == axis_sum(t.data@, len as nat, inner as nat, o2, n2, len as nat) by {
                        assert(o2 * inner + n2 < o * inner) by (nonlinear_arith)
                            requires
                                o2 < o,
                                n2 < inner,
                        ;
                    }
                }
                n = n + 1;
            }
            proof {
                assert forall|o2: int, n2: int|
                    0 <= o2 < o + 1 && 0 <= n2 < inner implies #[trigger] data@[o2 * inner + n2]@
                        == axis_sum(t.data@, len as nat, inner as nat, o2, n2, len as nat) by {
                    if o2 == o {
                    } else {
                    }
                }
                assert((o + 1) * inner == o * inner + inner) by (nonlinear_arith);
            }
            o = o + 1;
        }
        let mut shape = super::copy_shape(&t.shape);
        shape.set(a, 1);
        proof {
            let s2 = s.update(a as int, 1);
            lemma_size_split(s2, a as int);
            lemma_skip_size(s2, a as int);
            assert(s2.take(a as int) =~= s.take(a as int));
            assert(s2.skip(a + 1) =~= s.skip(a + 1));
            assert(shape_size(s2) == outer * inner);
        }
        let mut out: Vec<Tensor<Fe>> = Vec::new();
        out.push(Tensor { shape, data });
        Ok(out)
    }
}

/// The commitment of the first element of each tensor, in projective form.
pub open spec fn first_points(ts: Seq<Tensor<DataEnc>>) -> Seq<(nat, nat, nat)> {
    Seq::new(ts.len(), |i: int| enc_point(ts[i].data@[0]))
}

impl AddBasicBlock {
    /// The verifier's check of an addition, `f + g = h`: whether the sum of
    /// the two input commitments is the output commitment. No pairing check
    /// is left to do afterwards.
    pub fn verify(&self, inputs: &Vec<Tensor<DataEnc>>, outputs: &Vec<Tensor<DataEnc>>) -> (r: bool)
        requires
            inputs@.len() >= 2,
            outputs@.len() >= 1,
            inputs@[0].data@.len() >= 1,
            inputs@[1].data@.len() >= 1,
            outputs@[0].data@.len() >= 1,
        ensures
            r == g1_same_point(
                g1_add(enc_point(inputs@[0].data@[0]), enc_point(inputs@[1].data@[0])),
                enc_point(outputs@[0].data@[0]),
            ),
    {
        let a = inputs[0].data[0].g1.to_projective();
        let b = inputs[1].data[0].g1.to_projective();
        let c = outputs[0].data[0].g1.to_projective();
        g1_eq_at(&g1_add_at(&a, &b), &c)
    }
}

impl MultipleAddBasicBlock {
    /// The verifier's check of a sum of vectors: whether the input
    /// commitments, added in order from the identity, give the output
    /// commitment. No pairing check is left to do afterwards.
    pub fn verify(&self, inputs: &Vec<Tensor<DataEnc>>, outputs: &Vec<Tensor<DataEnc>>) -> (r: bool)
        requires
            forall|i: int| 0 <= i < inputs@.len() ==> #[trigger] inputs@[i].data@.len() >= 1,
            outputs@.len() >= 1,
            outputs@[0].data@.len() >= 1,
        ensures
            r == g1_same_point(
                g1_sum_upto(first_points(inputs@), inputs@.len() as nat),
                enc_point(outputs@[0].data@[0]),
            ),
    {
        let mut acc = G1::zero();
        let mut i: usize = 0;
        while i < inputs.len()
            invariant
                i <= inputs@.len(),
                forall|j: int| 0 <= j < inputs@.len() ==> #[trigger] inputs@[j].data@.len() >= 1,
                acc@ == g1_sum_upto(first_points(inputs@), i as nat),
            decreases inputs@.len() - i,
        {
            let p = inputs[i].data[0].g1.to_projective();
            acc = g1_add_at(&acc, &p);
            i = i + 1;
        }
        let c = outputs[0].data[0].g1.to_projective();
        g1_eq_at(&acc, &c)
    }
}

/// The commitments of a tensor's slices along an axis: slice `i` begins at
/// position `i` of the axis with every other index zero.
pub open spec fn axis_points(t: Tensor<DataEnc>, axis: int) -> Seq<(nat, nat, nat)> {
    let inner = shape_size(t.shape@.skip(axis + 1));
    Seq::new(t.shape@[axis] as nat, |i: int| enc_point(t.data@[i * inner]))
}

impl AddAlongAxisBasicBlock {
    /// The verifier's check of a sum along an axis: whether the commitments
    /// of the slices (the first element of each), added in order from the
    /// identity, give the output commitment. No pairing check is left to do
    /// afterwards.
    pub fn verify(&self, inputs: &Vec<Tensor<DataEnc>>, outputs: &Vec<Tensor<DataEnc>>) -> (r: bool)
        requires
            inputs@.len() >= 1,
            inputs@[0].wf(),
            self.axis < inputs@[0].ndim(),
            suffix_sizes_fit(inputs@[0].shape@),
            inputs@[0].shape@[self.axis as int] == 0 || inputs@[0].data@.len() >= 1,
            outputs@.len() >= 1,
            outputs@[0].data@.len() >= 1,
        ensures
            r == g1_same_point(
                g1_sum_upto(axis_points(inputs@[0], self.axis as int), inputs@[0].shape@[self.axis as int] as nat),
                enc_point(outputs@[0].data@[0]),
            ),
    {
        let t = &inputs[0];
        let a = self.axis;
        let nd = t.shape.len();
        assert(a < nd);
        let len = t.shape[a];
        let dlen = t.data.len();
        let inner = suffix_size(&t.shape, a + 1);
        let ghost s = t.shape@;
        let ghost outer = shape_size(s.take(a as int));
        proof {
            lemma_size_split(s, a as int);
            lemma_skip_size(s, a as int);
            assert(t.data@.len() == outer * (len * inner));
            if len > 0 {
                assert(outer * (len * inner) >= 1);
                assert(outer >= 1 && inner >= 1) by (nonlinear_arith)
                    requires
                        outer * (len * inner) >= 1,
                ;
            }
        }
        let mut acc = G1::zero();
        let mut i: usize = 0;
        while i < len
            invariant
                i <= len,
                a < s.len(),
                len == s[a as int],
                s == t.shape@,
                dlen == t.data@.len(),
                inner == shape_size(s.skip(a + 1)),
                t.data@.len() == outer * (len * inner),
                len > 0 ==> outer >= 1 && inner >= 1,
                acc@ == g1_sum_upto(axis_points(*t, a as int), i as nat),
            decreases len - i,
        {
            proof {
                assert(i * inner < outer * (len * inner)) by (nonlinear_arith)
                    requires
                        i < len,
                        outer >= 1,
                        inner >= 1,
                ;
            }
            let p = t.data[i * inner].g1.to_projective();
            acc = g1_add_at(&acc, &p);
            i = i + 1;
        }
        let c = outputs[0].data[0].g1.to_projective();
        g1_eq_at(&acc, &c)
    }
}

} // verus!
