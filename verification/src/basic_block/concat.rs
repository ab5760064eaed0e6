//! Concatenating tensors along an axis.
use crate::basic_block::CQOutOfRangeError;
use crate::field::{fe_of, Fe};
use crate::tensor::{
    is_pow2, lemma_next_pow, lemma_size_split, lemma_skip_size, next_pow, next_pow_from, next_pow_spec, pad_to_pow_of_two, pow2_shape, prefix_size, resize, resized, shape_size,
    suffix_size, suffix_sizes_fit, Tensor,
};
use vstd::multiset::Multiset;
use vstd::prelude::*;

verus! {

/// The total size of the first `k` blocks.
pub open spec fn blocks_sum(blocks: Seq<nat>, k: nat) -> nat
    decreases k,
{
    if k == 0 {
        0
    } else {
        blocks_sum(blocks, (k - 1) as nat) + blocks[k - 1]
    }
}

/// Block `o` of each of the first `k` parts, one after another; block `o` of
/// a part with block size `b` is its elements `o * b .. o * b + b`.
pub open spec fn joined_row(parts: Seq<Seq<Fe>>, blocks: Seq<nat>, o: nat, k: nat) -> Seq<Fe>
    decreases k,
{
    if k == 0 {
        Seq::empty()
    } else {
        let b = blocks[k - 1];
        joined_row(parts, blocks, o, (k - 1) as nat) + parts[k - 1].subrange((o * b) as int, (o * b + b) as int)
    }
}

/// The parts joined block by block: for each of the first `n` outer
/// positions, that block of every part in turn.
pub open spec fn joined(parts: Seq<Seq<Fe>>, blocks: Seq<nat>, n: nat) -> Seq<Fe>
    decreases n,
{
    if n == 0 {
        Seq::empty()
    } else {
        joined(parts, blocks, (n - 1) as nat) + joined_row(parts, blocks, (n - 1) as nat, parts.len())
    }
}

/// The elements of each tensor.
pub open spec fn tensor_parts(inputs: Seq<Tensor<Fe>>) -> Seq<Seq<Fe>> {
    inputs.map_values(|t: Tensor<Fe>| t.data@)
}

/// The shapes of a sequence of tensors.
pub open spec fn shapes_of(inputs: Seq<Tensor<Fe>>) -> Seq<Seq<usize>> {
    inputs.map_values(|t: Tensor<Fe>| t.shape@)
}

/// The size of the block that a tensor of each shape contributes for one
/// outer position when joined along `axis`: the size of its dimensions from
/// `axis` on.
pub open spec fn axis_blocks(shapes: Seq<Seq<usize>>, axis: int) -> Seq<nat> {
    shapes.map_values(|s: Seq<usize>| shape_size(s.skip(axis)))
}

/// The sum of the lengths along `axis` of the first `k` shapes.
pub open spec fn axis_sum(shapes: Seq<Seq<usize>>, axis: int, k: nat) -> nat
    decreases k,
{
    if k == 0 {
        0
    } else {
        axis_sum(shapes, axis, (k - 1) as nat) + shapes[k - 1][axis] as nat
    }
}

/// The shape of tensors of the given shapes joined along `axis`.
pub open spec fn concat_shape(shapes: Seq<Seq<usize>>, axis: int) -> Seq<usize> {
    shapes[0].update(axis, axis_sum(shapes, axis, shapes.len()) as usize)
}

/// Shapes along which tensors can be joined at `axis`: at least one, all
/// equal but along `axis`, with sizes that fit in a `usize`.
pub open spec fn joinable(shapes: Seq<Seq<usize>>, axis: int) -> bool {
    &&& shapes.len() >= 1
    &&& 0 <= axis < shapes[0].len()
    &&& forall|k: int|
        0 <= k < shapes.len() ==> {
            &&& (#[trigger] shapes[k]).len() == shapes[0].len()
            &&& suffix_sizes_fit(shapes[k])
            &&& forall|d: int| 0 <= d < shapes[0].len() && d != axis ==> shapes[k][d] == shapes[0][d]
        }
    &&& axis_sum(shapes, axis, shapes.len()) <= usize::MAX
    &&& forall|j: int| 0 <= j <= axis ==> #[trigger] shape_size(shapes[0].take(j)) <= usize::MAX
    &&& suffix_sizes_fit(concat_shape(shapes, axis))
}

/// Tensors that can be joined along `axis`.
pub open spec fn concat_accepts(inputs: Seq<Tensor<Fe>>, axis: int) -> bool {
    &&& forall|k: int| 0 <= k < inputs.len() ==> (#[trigger] inputs[k]).wf()
    &&& joinable(shapes_of(inputs), axis)
}

proof fn lemma_joined_row_len(parts: Seq<Seq<Fe>>, blocks: Seq<nat>, o: nat, k: nat)
    requires
        k <= parts.len(),
        k <= blocks.len(),
        forall|m: int| 0 <= m < k ==> o * blocks[m] + blocks[m] <= (#[trigger] parts[m]).len(),
    ensures
        joined_row(parts, blocks, o, k).len() == blocks_sum(blocks, k),
    decreases k,
{
    if k > 0 {
        lemma_joined_row_len(parts, blocks, o, (k - 1) as nat);
        assert(o * blocks[k - 1] + blocks[k - 1] <= parts[k - 1].len());
    }
}

proof fn lemma_joined_len(parts: Seq<Seq<Fe>>, blocks: Seq<nat>, n: nat)
    requires
        parts.len() == blocks.len(),
        forall|m: int| 0 <= m < parts.len() ==> n * blocks[m] <= (#[trigger] parts[m]).len(),
    ensures
        joined(parts, blocks, n).len() == n * blocks_sum(blocks, parts.len()),
    decreases n,
{
    if n > 0 {
        assert forall|m: int| 0 <= m < parts.len() implies (n - 1) * blocks[m] <= (#[trigger] parts[m]).len() by {
            assert((n - 1) * blocks[m] <= n * blocks[m]) by (nonlinear_arith);
        }
        lemma_joined_len(parts, blocks, (n - 1) as nat);
        assert forall|m: int| 0 <= m < parts.len() implies ((n - 1) as nat) * blocks[m] + blocks[m] <= (
        #[trigger] parts[m]).len() by {
            assert(((n - 1) as nat) * blocks[m] + blocks[m] == n * blocks[m]) by (nonlinear_arith)
                requires
                    n > 0,
            ;
        }
        lemma_joined_row_len(parts, blocks, (n - 1) as nat, parts.len());
        let s = blocks_sum(blocks, parts.len());
        assert(joined(parts, blocks, (n - 1) as nat).len() == ((n - 1) as nat) * s);
        assert(joined_row(parts, blocks, (n - 1) as nat, parts.len()).len() == s);
        assert(((n - 1) as nat) * s + s == n * s) by (nonlinear_arith)
            requires
                n > 0,
        ;
        assert(joined(parts, blocks, n) == joined(parts, blocks, (n - 1) as nat) + joined_row(
            parts,
            blocks,
            (n - 1) as nat,
            parts.len(),
        ));
    } else {
        let s = blocks_sum(blocks, parts.len());
        assert(n * s == 0) by (nonlinear_arith)
            requires
                n == 0,
        ;
    }
}

/// The blocks of shapes that agree from `axis + 1` on sum to the lengths
/// along `axis` times the size of those dimensions.
proof fn lemma_blocks_sum(shapes: Seq<Seq<usize>>, axis: int, k: nat)
    requires
        joinable(shapes, axis),
        k <= shapes.len(),
    ensures
        blocks_sum(axis_blocks(shapes, axis), k) == axis_sum(shapes, axis, k) * shape_size(shapes[0].skip(axis + 1)),
    decreases k,
{
    let tail = shape_size(shapes[0].skip(axis + 1));
    if k > 0 {
        lemma_blocks_sum(shapes, axis, (k - 1) as nat);
        let t = shapes[k - 1];
        assert(t.len() == shapes[0].len());
        assert forall|d: int| 0 <= d < shapes[0].len() && d != axis implies t[d] == shapes[0][d] by {
            assert(shapes[k - 1] == t);
        }
        assert(t.skip(axis + 1) =~= shapes[0].skip(axis + 1));
        lemma_skip_size(t, axis);
        let a = axis_sum(shapes, axis, (k - 1) as nat);
        let d = t[axis] as nat;
        assert(a * tail + d * tail == (a + d) * tail) by (nonlinear_arith);
    } else {
        assert(0 * tail == 0) by (nonlinear_arith);
    }
}

/// Joins tensors along `axis`: for each index of the dimensions before
/// `axis`, the corresponding block of every tensor in turn.
pub fn concat_tensors(inputs: &Vec<Tensor<Fe>>, axis: usize) -> (r: Tensor<Fe>)
    requires
        concat_accepts(inputs@, axis as int),
    ensures
        r.wf(),
        r.shape@ == concat_shape(shapes_of(inputs@), axis as int),
        r.data@ == joined(
            tensor_parts(inputs@),
            axis_blocks(shapes_of(inputs@), axis as int),
            shape_size(inputs@[0].shape@.take(axis as int)),
        ),
{
    let ghost parts = tensor_parts(inputs@);
    let ghost shapes = shapes_of(inputs@);
    let ghost blocks = axis_blocks(shapes, axis as int);
    let outer = prefix_size(&inputs[0].shape, axis);
    let n = inputs.len();
    // Each tensor holds `outer` blocks.
    assert forall|m: int| 0 <= m < n implies outer * blocks[m] == (#[trigger] parts[m]).len() by {
        let t = inputs@[m];
        assert(shapes[m] == t.shape@);
        assert(shapes[0] == inputs@[0].shape@);
        assert(t.shape@.len() == shapes[0].len());
        lemma_size_split(t.shape@, axis as int);
        assert(t.shape@.take(axis as int) =~= inputs@[0].shape@.take(axis as int));
    }
    let mut data: Vec<Fe> = Vec::new();
    let mut o: usize = 0;
    while o < outer
        invariant
            concat_accepts(inputs@, axis as int),
            parts == tensor_parts(inputs@),
            shapes == shapes_of(inputs@),
                blocks == axis_blocks(shapes, axis as int),
            n == inputs.len(),
            outer == shape_size(inputs@[0].shape@.take(axis as int)),
            forall|m: int| 0 <= m < n ==> outer * blocks[m] == (#[trigger] parts[m]).len(),
            o <= outer,
            data@ == joined(parts, blocks, o as nat),
        decreases outer - o,
    {
        let ghost before = data@;
        let mut k: usize = 0;
        while k < n
            invariant
                concat_accepts(inputs@, axis as int),
                parts == tensor_parts(inputs@),
                shapes == shapes_of(inputs@),
                blocks == axis_blocks(shapes, axis as int),
                n == inputs.len(),
                forall|m: int| 0 <= m < n ==> outer * blocks[m] == (#[trigger] parts[m]).len(),
                o < outer,
                k <= n,
                before == joined(parts, blocks, o as nat),
                data@ == before + joined_row(parts, blocks, o as nat, k as nat),
            decreases n - k,
        {
            let t = &inputs[k];
            assert(shapes[k as int] == t.shape@);
            assert(shapes[0] == inputs@[0].shape@);
            assert(t.wf() && suffix_sizes_fit(t.shape@) && t.shape@.len() == inputs@[0].shape@.len());
            let b = suffix_size(&t.shape, axis);
            assert(b == blocks[k as int]);
            assert(parts[k as int] == t.data@);
            assert(outer * b == t.data@.len());
            let tlen = t.data.len();
            assert(o * b + b <= outer * b) by (nonlinear_arith)
                requires
                    o < outer,
            ;
            let start = o * b;
            let ghost mid = data@;
            let mut c: usize = 0;
            while c < b
                invariant
                    t == inputs@[k as int],
                    t.data@ == parts[k as int],
                    start + b <= t.data@.len(),
                    tlen == t.data@.len(),
                    c <= b,
                    data@ == mid + t.data@.subrange(start as int, start + c),
                decreases b - c,
            {
                data.push(t.data[start + c]);
                c = c + 1;
                proof {
                    assert(data@ =~= mid + t.data@.subrange(start as int, start + c));
                }
            }
            k = k + 1;
            proof {
                assert(data@ =~= before + joined_row(parts, blocks, o as nat, k as nat));
            }
        }
        o = o + 1;
        proof {
            assert(data@ =~= joined(parts, blocks, o as nat));
        }
    }
    let mut total: usize = 0;
    let mut k: usize = 0;
    while k < n
        invariant
            concat_accepts(inputs@, axis as int),
            n == inputs.len(),
            k <= n,
            shapes == shapes_of(inputs@),
            total == axis_sum(shapes, axis as int, k as nat),
        decreases n - k,
    {
        proof {
            lemma_axis_sum_mono(shapes, axis as int, (k + 1) as nat, n as nat);
        }
        total = total + inputs[k].shape[axis];
        k = k + 1;
    }
    let mut shape = inputs[0].shape.clone();
    shape.set(axis, total);
    proof {
        assert(shape@ =~= concat_shape(shapes, axis as int));
        let cs = shape@;
        assert forall|m: int| 0 <= m < parts.len() implies outer * blocks[m] <= (#[trigger] parts[m]).len() by {}
        lemma_joined_len(parts, blocks, outer as nat);
        lemma_blocks_sum(shapes, axis as int, n as nat);
        lemma_size_split(cs, axis as int);
        assert(cs.take(axis as int) =~= inputs@[0].shape@.take(axis as int));
        lemma_skip_size(cs, axis as int);
        assert(cs.skip(axis + 1) =~= inputs@[0].shape@.skip(axis + 1));
        let tail = shape_size(inputs@[0].shape@.skip(axis + 1));
        assert(outer * (total * tail) == outer * ((total as nat) * tail));
    }
    Tensor { shape, data }
}

proof fn lemma_axis_sum_mono(shapes: Seq<Seq<usize>>, axis: int, k: nat, n: nat)
    requires
        k <= n <= shapes.len(),
    ensures
        axis_sum(shapes, axis, k) <= axis_sum(shapes, axis, n),
    decreases n,
{
    if k < n {
        lemma_axis_sum_mono(shapes, axis, k, (n - 1) as nat);
    }
}

} // verus!

verus! {

/// Joins its inputs along `axis`, which is not their last axis.
#[derive(Debug)]
pub struct ConcatBasicBlock {
    pub axis: usize,
}

impl ConcatBasicBlock {
    pub fn run(&self, _model: &Tensor<Fe>, inputs: &Vec<Tensor<Fe>>) -> (r: Result<Vec<Tensor<Fe>>, CQOutOfRangeError>)
        requires
            concat_accepts(inputs@, self.axis as int),
            self.axis + 1 != inputs@[0].shape@.len(),
        ensures
            r matches Ok(v) && v@.len() == 1 && v@[0].wf() && v@[0].shape@ == concat_shape(
                shapes_of(inputs@),
                self.axis as int,
            ) && v@[0].data@ == joined(
                tensor_parts(inputs@),
                axis_blocks(shapes_of(inputs@), self.axis as int),
                shape_size(inputs@[0].shape@.take(self.axis as int)),
            ),
    {
        let t = concat_tensors(inputs, self.axis);
        let mut v: Vec<Tensor<Fe>> = Vec::new();
        v.push(t);
        Ok(v)
    }
}

/// Cuts each input down to its shape in `input_shapes`, joins them along
/// their last axis, and pads every dimension of the result up to a power of
/// two with zeros.
#[derive(Debug)]
pub struct ConcatLastDimBasicBlock {
    pub input_shapes: Vec<Vec<usize>>,
}

/// The first `n` shapes of a list.
pub open spec fn first_shapes(shapes: Seq<Vec<usize>>, n: nat) -> Seq<Seq<usize>> {
    Seq::new(n, |i: int| shapes[i]@)
}

/// The elements of each input cut down to its shape in `shapes`.
pub open spec fn cut_parts(inputs: Seq<Tensor<Fe>>, shapes: Seq<Vec<usize>>) -> Seq<Seq<Fe>> {
    Seq::new(inputs.len(), |i: int| resized(inputs[i].data@, inputs[i].shape@, shapes[i]@, fe_of(0)))
}

/// The inputs a join along the last axis accepts: one shape for each input
/// that lies inside it, cut shapes that can be joined along the last axis,
/// and a padded result whose sizes fit in a `usize`.
pub open spec fn last_dim_accepts(shapes: Seq<Vec<usize>>, inputs: Seq<Tensor<Fe>>) -> bool {
    let sh = first_shapes(shapes, inputs.len());
    let axis = inputs[0].shape@.len() - 1;
    &&& inputs.len() >= 1
    &&& shapes.len() >= inputs.len()
    &&& forall|i: int|
        0 <= i < inputs.len() ==> {
            &&& (#[trigger] inputs[i]).wf()
            &&& suffix_sizes_fit(inputs[i].shape@)
            &&& shapes[i]@.len() == inputs[i].shape@.len()
            &&& forall|d: int| 0 <= d < shapes[i]@.len() ==> shapes[i]@[d] <= inputs[i].shape@[d]
        }
    &&& joinable(sh, axis)
    &&& forall|d: int|
        0 <= d < concat_shape(sh, axis).len() ==> next_pow_spec(#[trigger] concat_shape(sh, axis)[d] as nat)
            <= usize::MAX
    &&& suffix_sizes_fit(pow2_shape(concat_shape(sh, axis)))
}

impl ConcatLastDimBasicBlock {
    pub fn run(&self, _model: &Tensor<Fe>, inputs: &Vec<Tensor<Fe>>) -> (r: Result<Vec<Tensor<Fe>>, CQOutOfRangeError>)
        requires
            last_dim_accepts(self.input_shapes@, inputs@),
        ensures
            ({
                let sh = first_shapes(self.input_shapes@, inputs@.len());
                let axis = inputs@[0].shape@.len() - 1;
                let cs = concat_shape(sh, axis);
                r matches Ok(v) && v@.len() == 1 && v@[0].wf() && v@[0].shape@ == pow2_shape(cs) && v@[0].data@
                    == resized(
                    joined(cut_parts(inputs@, self.input_shapes@), axis_blocks(sh, axis), shape_size(sh[0].take(axis))),
                    cs,
                    pow2_shape(cs),
                    fe_of(0),
                )
            }),
    {
        let ghost sh = first_shapes(self.input_shapes@, inputs@.len());
        let axis = inputs[0].shape.len() - 1;
        let zero = Fe::zero();
        proof {
            crate::field::lemma_fe_of(zero);
        }
        let n = inputs.len();
        let mut cut: Vec<Tensor<Fe>> = Vec::new();
        let mut i: usize = 0;
        while i < n
            invariant
                last_dim_accepts(self.input_shapes@, inputs@),
                sh == first_shapes(self.input_shapes@, inputs@.len()),
                n == inputs.len(),
                zero == fe_of(0),
                i <= n,
                cut@.len() == i,
                forall|k: int|
                    0 <= k < i ==> (#[trigger] cut@[k]).wf() && cut@[k].shape@ == sh[k] && cut@[k].data@
                        == cut_parts(inputs@, self.input_shapes@)[k],
            decreases n - i,
        {
            assert(inputs@[i as int].wf());
            assert(sh[i as int] == self.input_shapes@[i as int]@);
            assert(suffix_sizes_fit(sh[i as int]));
            let c = resize(&inputs[i], &self.input_shapes[i], zero);
            cut.push(c);
            i = i + 1;
        }
        proof {
            assert(shapes_of(cut@) =~= sh);
            assert(tensor_parts(cut@) =~= cut_parts(inputs@, self.input_shapes@));
            assert(sh[0] == cut@[0].shape@);
        }
        let joined_t = concat_tensors(&cut, axis);
        let padded = pad_to_pow_of_two(&joined_t, zero);
        let mut v: Vec<Tensor<Fe>> = Vec::new();
        v.push(padded);
        Ok(v)
    }
}

} // verus!

verus! {

/// The rows of a table, as sequences.
pub open spec fn table_rows<T>(t: Seq<Vec<T>>) -> Seq<Seq<T>> {
    t.map_values(|v: Vec<T>| v@)
}

/// A table with the elements at `(i1, j1)` and `(i2, j2)` exchanged.
pub open spec fn swapped<T>(t: Seq<Seq<T>>, i1: int, j1: int, i2: int, j2: int) -> Seq<Seq<T>> {
    let a = t[i1][j1];
    let b = t[i2][j2];
    let t1 = t.update(i1, t[i1].update(j1, b));
    t1.update(i2, t1[i2].update(j2, a))
}

/// Exchanges the elements at `(i1, j1)` and `(i2, j2)` of a table; nothing
/// happens when the two positions are the same.
pub fn swap_elements<T>(table: &mut Vec<Vec<T>>, i1: usize, j1: usize, i2: usize, j2: usize)
    requires
        (i1 == i2 && j1 == j2) || (i1 < old(table)@.len() && i2 < old(table)@.len() && j1 < old(table)@[i1 as int]@.len()
            && j2 < old(table)@[i2 as int]@.len()),
    ensures
        i1 == i2 && j1 == j2 ==> final(table)@ == old(table)@,
        !(i1 == i2 && j1 == j2) ==> table_rows(final(table)@) == swapped(
            table_rows(old(table)@),
            i1 as int,
            j1 as int,
            i2 as int,
            j2 as int,
        ),
{
    if i1 == i2 && j1 == j2 {
        return;
    }
    let ghost t0 = table_rows(table@);
    if i1 == i2 {
        let (lo, hi) = if j1 < j2 {
            (j1, j2)
        } else {
            (j2, j1)
        };
        let mut row = table.remove(i1);
        let ghost r0 = row@;
        let b = row.remove(hi);
        let a = row.remove(lo);
        row.insert(lo, b);
        row.insert(hi, a);
        proof {
            assert(row@ =~= r0.update(lo as int, r0[hi as int]).update(hi as int, r0[lo as int]));
        }
        table.insert(i1, row);
        proof {
            let want = swapped(t0, i1 as int, j1 as int, i2 as int, j2 as int);
            assert forall|m: int| 0 <= m < want.len() implies #[trigger] table_rows(table@)[m] =~= want[m] by {}
            assert(table_rows(table@) =~= want);
        }
    } else {
        let (ilo, jlo, ihi, jhi) = if i1 < i2 {
            (i1, j1, i2, j2)
        } else {
            (i2, j2, i1, j1)
        };
        let mut rhi = table.remove(ihi);
        let mut rlo = table.remove(ilo);
        let ghost lo0 = rlo@;
        let ghost hi0 = rhi@;
        let x = rlo.remove(jlo);
        let y = rhi.remove(jhi);
        rlo.insert(jlo, y);
        rhi.insert(jhi, x);
        proof {
            assert(rlo@ =~= lo0.update(jlo as int, hi0[jhi as int]));
            assert(rhi@ =~= hi0.update(jhi as int, lo0[jlo as int]));
        }
        table.insert(ilo, rlo);
        table.insert(ihi, rhi);
        proof {
            let want = swapped(t0, i1 as int, j1 as int, i2 as int, j2 as int);
            assert forall|m: int| 0 <= m < want.len() implies #[trigger] table_rows(table@)[m] =~= want[m] by {}
            assert(table_rows(table@) =~= want);
        }
    }
}

} // verus!

verus! {

/// Joining a single part gives that part back.
pub proof fn join_single(d: Seq<Fe>, b: nat, n: nat)
    requires
        d.len() == n * b,
    ensures
        joined(seq![d], seq![b], n) == d,
{
    lemma_join_single_prefix(d, b, n, n);
    assert(d.take((n * b) as int) =~= d);
}

proof fn lemma_join_single_prefix(d: Seq<Fe>, b: nat, n: nat, k: nat)
    requires
        d.len() == n * b,
        k <= n,
    ensures
        joined(seq![d], seq![b], k) == d.take((k * b) as int),
    decreases k,
{
    if k > 0 {
        lemma_join_single_prefix(d, b, n, (k - 1) as nat);
        assert(((k - 1) as nat) * b + b == k * b) by (nonlinear_arith)
            requires
                k > 0,
        ;
        assert(k * b <= n * b) by (nonlinear_arith)
            requires
                k <= n,
        ;
        let ps = seq![d];
        let bs = seq![b];
        assert(joined_row(ps, bs, (k - 1) as nat, 1) =~= d.subrange((((k - 1) as nat) * b) as int, (k * b) as int)) by {
            assert(joined_row(ps, bs, (k - 1) as nat, 0) =~= Seq::<Fe>::empty());
        }
        assert(joined(ps, bs, k) =~= d.take((k * b) as int));
    } else {
        assert(0 * b == 0) by (nonlinear_arith);
        assert(d.take(0) =~= Seq::<Fe>::empty());
    }
}

} // verus!

verus! {

/// The product of the dimensions of a shape before position `m`, each
/// rounded up to a power of two.
pub open spec fn pow2_prefix_product(shape: Seq<usize>, m: nat) -> nat
    decreases m,
{
    if m == 0 {
        1
    } else {
        pow2_prefix_product(shape, (m - 1) as nat) * next_pow_spec(shape[m - 1] as nat)
    }
}

/// The number of polynomials of a tensor of the given shape: the product of
/// all its dimensions but the last, each rounded up to a power of two.
pub open spec fn poly_count(shape: Seq<usize>) -> nat {
    pow2_prefix_product(shape, (shape.len() - 1) as nat)
}

/// The sum of the first `k` numbers.
pub open spec fn prefix_sum(v: Seq<nat>, k: nat) -> nat
    decreases k,
{
    if k == 0 {
        0
    } else {
        prefix_sum(v, (k - 1) as nat) + v[k - 1]
    }
}

/// The polynomial counts of the inputs.
pub open spec fn poly_counts(shapes: Seq<Vec<usize>>) -> Seq<nat> {
    Seq::new(shapes.len(), |k: int| poly_count(shapes[k]@))
}

/// The last dimensions of the inputs.
pub open spec fn last_dims(shapes: Seq<Vec<usize>>) -> Seq<nat> {
    Seq::new(shapes.len(), |k: int| shapes[k]@[shapes[k]@.len() - 1] as nat)
}

/// The exchange that element `j` of input `k` makes for polynomial `i`: its
/// position `(first polynomial of input k + i, j * N_out / N_inp[k])` with the
/// output position `(first output polynomial + i, the element's place in the
/// joined last axis)`.
pub open spec fn concat_swap(shapes: Seq<Vec<usize>>, n_inp: Seq<usize>, n_out: nat, i: int, k: int, j: int) -> (
    int,
    int,
    int,
    int,
) {
    let p = poly_counts(shapes);
    let l = last_dims(shapes);
    (
        prefix_sum(p, k as nat) + i,
        j * (n_out as int / n_inp[k] as int),
        prefix_sum(p, shapes.len()) + i,
        prefix_sum(l, k as nat) + j,
    )
}

/// A table after an exchange, or unchanged when both positions are the same.
pub open spec fn exchange<T>(t: Seq<Seq<T>>, s: (int, int, int, int)) -> Seq<Seq<T>> {
    if s.0 == s.2 && s.1 == s.3 {
        t
    } else {
        swapped(t, s.0, s.1, s.2, s.3)
    }
}

/// The table after the exchanges of polynomial `i` for the inputs before `k`
/// and the first `j` elements of input `k`, starting from `t`.
pub open spec fn concat_row_swaps<T>(
    t: Seq<Seq<T>>,
    shapes: Seq<Vec<usize>>,
    n_inp: Seq<usize>,
    n_out: nat,
    i: int,
    k: nat,
    j: nat,
) -> Seq<Seq<T>>
    decreases k, j,
{
    if j > 0 {
        exchange(concat_row_swaps(t, shapes, n_inp, n_out, i, k, (j - 1) as nat), concat_swap(shapes, n_inp, n_out, i, k as int, j - 1))
    } else if k > 0 {
        concat_row_swaps(t, shapes, n_inp, n_out, i, (k - 1) as nat, last_dims(shapes)[k - 1])
    } else {
        t
    }
}

/// The table after the exchanges of the first `i` polynomials.
pub open spec fn concat_swaps<T>(t: Seq<Seq<T>>, shapes: Seq<Vec<usize>>, n_inp: Seq<usize>, n_out: nat, i: nat) -> Seq<
    Seq<T>,
>
    decreases i,
{
    if i == 0 {
        t
    } else {
        concat_row_swaps(concat_swaps(t, shapes, n_inp, n_out, (i - 1) as nat), shapes, n_inp, n_out, i - 1, shapes.len(), 0)
    }
}

/// Whether an exchange stays inside a table with rows of the given lengths.
pub open spec fn swap_inside<T>(t: Seq<Seq<T>>, s: (int, int, int, int)) -> bool {
    (s.0 == s.2 && s.1 == s.3) || (0 <= s.0 < t.len() && 0 <= s.2 < t.len() && 0 <= s.1 < t[s.0].len() && 0 <= s.3
        < t[s.2].len())
}

/// The inputs `swap_for_concat` accepts: at least one input shape, each of
/// at least one dimension below `2^31` (whose powers of two are computed in
/// 32 bits), a non-zero domain size per input, counts and positions that fit
/// in a `usize`, and exchanges inside the table.
pub open spec fn swap_for_concat_accepts<T>(t: Seq<Seq<T>>, shapes: Seq<Vec<usize>>, n_inp: Seq<usize>, n_out: nat) -> bool {
    let p = poly_counts(shapes);
    let l = last_dims(shapes);
    &&& shapes.len() >= 1
    &&& n_inp.len() >= shapes.len()
    &&& forall|k: int|
        0 <= k < shapes.len() ==> {
            &&& (#[trigger] shapes[k])@.len() >= 1
            &&& n_inp[k] > 0
            &&& forall|d: int| 0 <= d < shapes[k]@.len() ==> shapes[k]@[d] <= 0x8000_0000
            &&& forall|m: nat| m < shapes[k]@.len() ==> #[trigger] pow2_prefix_product(shapes[k]@, m) <= usize::MAX
        }
    &&& prefix_sum(p, shapes.len()) + p[0] <= usize::MAX
    &&& prefix_sum(l, shapes.len()) <= usize::MAX
    &&& forall|i: int, k: int, j: int|
        0 <= i < p[0] && 0 <= k < shapes.len() && 0 <= j < l[k] ==> {
            &&& j * (n_out as int / n_inp[k] as int) <= usize::MAX
            &&& swap_inside(t, #[trigger] concat_swap(shapes, n_inp, n_out, i, k, j))
        }
}

pub(crate) proof fn lemma_prefix_sum_mono(v: Seq<nat>, k: nat, n: nat)
    requires
        k <= n <= v.len(),
    ensures
        prefix_sum(v, k) <= prefix_sum(v, n),
    decreases n,
{
    if k < n {
        lemma_prefix_sum_mono(v, k, (n - 1) as nat);
    }
}

/// Exchanges keep the length of every row.
proof fn lemma_exchange_shape<T>(t: Seq<Seq<T>>, s: (int, int, int, int))
    requires
        swap_inside(t, s),
    ensures
        exchange(t, s).len() == t.len(),
        forall|r: int| 0 <= r < t.len() ==> #[trigger] exchange(t, s)[r].len() == t[r].len(),
{
}

/// The product of a shape's dimensions but the last, each rounded up to a
/// power of two.
pub(crate) fn poly_count_exec(shape: &Vec<usize>) -> (r: usize)
    requires
        shape@.len() >= 1,
        forall|d: int| 0 <= d < shape@.len() ==> shape@[d] <= 0x8000_0000,
        forall|m: nat| m < shape@.len() ==> #[trigger] pow2_prefix_product(shape@, m) <= usize::MAX,
    ensures
        r == poly_count(shape@),
{
    let mut r: usize = 1;
    let mut m: usize = 0;
    let last = shape.len() - 1;
    while m < last
        invariant
            shape@.len() >= 1,
            last == shape@.len() - 1,
            m <= last,
            forall|d: int| 0 <= d < shape@.len() ==> shape@[d] <= 0x8000_0000,
            forall|m2: nat| m2 < shape@.len() ==> #[trigger] pow2_prefix_product(shape@, m2) <= usize::MAX,
            r == pow2_prefix_product(shape@, m as nat),
        decreases last - m,
    {
        proof {
            lemma_next_pow(shape@[m as int] as nat);
            assert(next_pow_spec(shape@[m as int] as nat) <= 0x8000_0000) by {
                lemma_next_pow_small(shape@[m as int] as nat);
            }
            assert(pow2_prefix_product(shape@, (m + 1) as nat) <= usize::MAX);
        }
        let d = next_pow(shape[m]);
        r = r * d;
        m = m + 1;
    }
    r
}

/// A power of two at least `n` stays at or below `2^31` for `n` at or below it.
proof fn lemma_next_pow_small(n: nat)
    requires
        n <= 0x8000_0000,
    ensures
        next_pow_spec(n) <= 0x8000_0000,
{
    lemma_next_pow(n);
    lemma_pow2_below(next_pow_spec(n), n);
}

/// The smallest power of two at least `n` is at most `2^31` when `n` is.
proof fn lemma_pow2_below(p: nat, n: nat)
    requires
        p == next_pow_spec(n),
        n <= 0x8000_0000,
    ensures
        p <= 0x8000_0000,
{
    assert(is_pow2(0x8000_0000)) by {
        reveal_with_fuel(is_pow2, 33);
    }
    lemma_next_pow_from_le(1, n, 0x8000_0000);
}

proof fn lemma_next_pow_from_le(p: nat, n: nat, q: nat)
    requires
        p >= 1,
        p <= q,
        n <= q,
        is_pow2(p),
        is_pow2(q),
    ensures
        next_pow_from(p, n) <= q,
    decreases q - p,
{
    if p < n {
        lemma_pow2_double_le(p, q);
        assert((2 * p) % 2 == 0 && (2 * p) / 2 == p);
        lemma_next_pow_from_le(2 * p, n, q);
    }
}

/// Twice a power of two below another power of two is at most that power.
proof fn lemma_pow2_double_le(p: nat, q: nat)
    requires
        p >= 1,
        p < q,
        is_pow2(p),
        is_pow2(q),
    ensures
        2 * p <= q,
    decreases p,
{
    if p > 1 {
        lemma_pow2_double_le(p / 2, q / 2);
    }
}

} // verus!

verus! {

/// Two tables with the same number of rows, of the same lengths.
pub open spec fn same_shape<T>(a: Seq<Seq<T>>, b: Seq<Seq<T>>) -> bool {
    a.len() == b.len() && forall|r: int| 0 <= r < a.len() ==> #[trigger] a[r].len() == b[r].len()
}

/// An exchange inside a table stays inside every table of the same shape.
proof fn lemma_inside_same_shape<T>(a: Seq<Seq<T>>, b: Seq<Seq<T>>, s: (int, int, int, int))
    requires
        same_shape(a, b),
        swap_inside(b, s),
    ensures
        swap_inside(a, s),
{
    if !(s.0 == s.2 && s.1 == s.3) {
        assert(a[s.0].len() == b[s.0].len());
        assert(a[s.2].len() == b[s.2].len());
    }
}

/// A copy of a table of field elements.
fn copy_table(t: &Vec<Vec<Fe>>) -> (r: Vec<Vec<Fe>>)
    ensures
        table_rows(r@) == table_rows(t@),
{
    let mut r: Vec<Vec<Fe>> = Vec::new();
    let mut k: usize = 0;
    while k < t.len()
        invariant
            k <= t.len(),
            r@.len() == k,
            table_rows(r@) == table_rows(t@).take(k as int),
        decreases t.len() - k,
    {
        let row = crate::basic_block::copy_fes(&t[k]);
        let ghost before = r@;
        r.push(row);
        proof {
            assert(r@[k as int]@ == t@[k as int]@);
            assert forall|m: int| 0 <= m < k implies #[trigger] r@[m] == before[m] by {}
        }
        k = k + 1;
        proof {
            assert(table_rows(r@) =~= table_rows(t@).take(k as int));
        }
    }
    proof {
        assert(table_rows(t@).take(t@.len() as int) =~= table_rows(t@));
    }
    r
}

/// Moves the elements that the joined tensor's permutation polynomials hold
/// for a concatenation along the last axis: for each polynomial `i` of the
/// first input and each element `j` of each input's last axis, the entry of
/// the input's polynomial at `j * N_out / N_inp` is exchanged with the entry
/// of the output's polynomial at the element's place in the joined axis.
pub fn swap_for_concat(ssig: &Vec<Vec<Fe>>, input_shapes: &Vec<Vec<usize>>, N_inp: Vec<usize>, N_out: usize) -> (r: Vec<
    Vec<Fe>,
>)
    requires
        swap_for_concat_accepts(table_rows(ssig@), input_shapes@, N_inp@, N_out as nat),
    ensures
        table_rows(r@) == concat_swaps(
            table_rows(ssig@),
            input_shapes@,
            N_inp@,
            N_out as nat,
            poly_counts(input_shapes@)[0],
        ),
{
    let ghost t0 = table_rows(ssig@);
    let ghost shapes = input_shapes@;
    let ghost p = poly_counts(shapes);
    let ghost l = last_dims(shapes);
    let mut table = copy_table(ssig);
    let n = input_shapes.len();
    let mut products: Vec<usize> = Vec::new();
    let mut lasts: Vec<usize> = Vec::new();
    let mut start: usize = 0;
    let mut k: usize = 0;
    while k < n
        invariant
            swap_for_concat_accepts(t0, shapes, N_inp@, N_out as nat),
            shapes == input_shapes@,
            p == poly_counts(shapes),
            l == last_dims(shapes),
            n == shapes.len(),
            k <= n,
            products@.len() == k,
            lasts@.len() == k,
            forall|m: int| 0 <= m < k ==> #[trigger] products@[m] == p[m],
            forall|m: int| 0 <= m < k ==> #[trigger] lasts@[m] == l[m],
            start == prefix_sum(p, k as nat),
        decreases n - k,
    {
        assert(shapes[k as int]@.len() >= 1);
        let c = poly_count_exec(&input_shapes[k]);
        proof {
            lemma_prefix_sum_mono(p, (k + 1) as nat, n as nat);
        }
        products.push(c);
        lasts.push(input_shapes[k][input_shapes[k].len() - 1]);
        assert(products@[k as int] == p[k as int] && lasts@[k as int] == l[k as int]);
        start = start + c;
        k = k + 1;
    }
    let p0 = products[0];
    let mut i: usize = 0;
    while i < p0
        invariant
            swap_for_concat_accepts(t0, shapes, N_inp@, N_out as nat),
            shapes == input_shapes@,
            p == poly_counts(shapes),
            l == last_dims(shapes),
            n == shapes.len(),
            products@.len() == n,
            lasts@.len() == n,
            forall|m: int| 0 <= m < n ==> #[trigger] products@[m] == p[m],
            forall|m: int| 0 <= m < n ==> #[trigger] lasts@[m] == l[m],
            start == prefix_sum(p, n as nat),
            p0 == p[0],
            i <= p0,
            table_rows(table@) == concat_swaps(t0, shapes, N_inp@, N_out as nat, i as nat),
            same_shape(table_rows(table@), t0),
        decreases p0 - i,
    {
        let ghost ti = table_rows(table@);
        let mut out_j: usize = 0;
        let mut first: usize = 0;
        let mut k: usize = 0;
        while k < n
            invariant
                swap_for_concat_accepts(t0, shapes, N_inp@, N_out as nat),
                shapes == input_shapes@,
                p == poly_counts(shapes),
                l == last_dims(shapes),
                n == shapes.len(),
                products@.len() == n,
                lasts@.len() == n,
                forall|m: int| 0 <= m < n ==> #[trigger] products@[m] == p[m],
            forall|m: int| 0 <= m < n ==> #[trigger] lasts@[m] == l[m],
                start == prefix_sum(p, n as nat),
                p0 == p[0],
                i < p0,
                ti == concat_swaps(t0, shapes, N_inp@, N_out as nat, i as nat),
                k <= n,
                first == prefix_sum(p, k as nat),
                out_j == prefix_sum(l, k as nat),
                table_rows(table@) == concat_row_swaps(ti, shapes, N_inp@, N_out as nat, i as int, k as nat, 0),
                same_shape(table_rows(table@), t0),
            decreases n - k,
        {
            assert(shapes[k as int]@.len() >= 1);
            let step = N_out / N_inp[k];
            let lk = lasts[k];
            proof {
                lemma_prefix_sum_mono(p, (k + 1) as nat, n as nat);
                lemma_prefix_sum_mono(l, (k + 1) as nat, n as nat);
            }
            let mut j: usize = 0;
            while j < lk
                invariant
                    swap_for_concat_accepts(t0, shapes, N_inp@, N_out as nat),
                    shapes == input_shapes@,
                    p == poly_counts(shapes),
                    l == last_dims(shapes),
                    n == shapes.len(),
                    start == prefix_sum(p, n as nat),
                    p0 == p[0],
                    i < p0,
                    k < n,
                    lk == l[k as int],
                    step == N_out / N_inp@[k as int],
                    ti == concat_swaps(t0, shapes, N_inp@, N_out as nat, i as nat),
                    first == prefix_sum(p, k as nat),
                    first <= start,
                    prefix_sum(l, (k + 1) as nat) <= prefix_sum(l, n as nat),
                    j <= lk,
                    out_j == prefix_sum(l, k as nat) + j,
                    table_rows(table@) == concat_row_swaps(ti, shapes, N_inp@, N_out as nat, i as int, k as nat, j as nat),
                    same_shape(table_rows(table@), t0),
                decreases lk - j,
            {
                let ghost s = concat_swap(shapes, N_inp@, N_out as nat, i as int, k as int, j as int);
                assert(swap_inside(t0, s));
                let ghost before = table_rows(table@);
                proof {
                    lemma_inside_same_shape(before, t0, s);
                }
                swap_elements(&mut table, first + i, j * step, start + i, out_j);
                proof {
                    assert(table_rows(table@) == exchange(before, s));
                    assert(swap_inside(before, s));
                    lemma_exchange_shape(before, s);
                }
                out_j = out_j + 1;
                j = j + 1;
            }
            first = first + products[k];
            k = k + 1;
        }
        i = i + 1;
    }
    table
}

/// The cells of a table, counted with their multiplicity.
pub open spec fn table_cells<T>(t: Seq<Seq<T>>) -> Multiset<T>
    decreases t.len(),
{
    if t.len() == 0 {
        Multiset::empty()
    } else {
        table_cells(t.drop_last()).add(t.last().to_multiset())
    }
}

/// Replacing one cell takes the old value out of the cells and puts the new
/// one in.
proof fn lemma_cells_update<T>(t: Seq<Seq<T>>, i: int, j: int, v: T)
    requires
        0 <= i < t.len(),
        0 <= j < t[i].len(),
    ensures
        table_cells(t.update(i, t[i].update(j, v))) == table_cells(t).insert(v).remove(t[i][j]),
    decreases t.len(),
{
    broadcast use vstd::multiset::group_multiset_axioms;
    let u = t.update(i, t[i].update(j, v));
    let x = t[i][j];
    let a = table_cells(t.drop_last());
    if i < t.len() - 1 {
        assert(u.drop_last() =~= t.drop_last().update(i, t[i].update(j, v)));
        assert(t.drop_last()[i] == t[i]);
        lemma_cells_update(t.drop_last(), i, j, v);
        lemma_cells_count(t.drop_last(), i, j);
        assert(u.last() == t.last());
        let l = t.last().to_multiset();
        assert forall|e: T| #[trigger] table_cells(u).count(e) == table_cells(t).insert(v).remove(x).count(e) by {
            assert(table_cells(u) == a.insert(v).remove(x).add(l));
            assert(table_cells(t) == a.add(l));
        }
    } else {
        assert(u.drop_last() =~= t.drop_last());
        assert(u.last() == t[i].update(j, v));
        vstd::seq_lib::to_multiset_update(t[i], j, v);
        vstd::seq_lib::to_multiset_contains(t[i], x);
        assert(t[i].contains(x));
        let l = t[i].to_multiset();
        assert(t.last() == t[i]);
        assert forall|e: T| #[trigger] table_cells(u).count(e) == table_cells(t).insert(v).remove(x).count(e) by {
            assert(table_cells(u) == a.add(l.insert(v).remove(x)));
            assert(table_cells(t) == a.add(l));
        }
    }
    assert(table_cells(u) =~= table_cells(t).insert(v).remove(x));
}

/// A cell of a table is among its cells.
proof fn lemma_cells_count<T>(t: Seq<Seq<T>>, i: int, j: int)
    requires
        0 <= i < t.len(),
        0 <= j < t[i].len(),
    ensures
        table_cells(t).count(t[i][j]) > 0,
    decreases t.len(),
{
    broadcast use vstd::multiset::group_multiset_axioms;
    if i < t.len() - 1 {
        lemma_cells_count(t.drop_last(), i, j);
        assert(t.drop_last()[i] == t[i]);
    } else {
        vstd::seq_lib::to_multiset_contains(t[i], t[i][j]);
        assert(t[i].contains(t[i][j]));
    }
}

/// An exchange inside a table keeps its shape and its cells.
proof fn lemma_exchange_keeps<T>(t: Seq<Seq<T>>, s: (int, int, int, int))
    requires
        swap_inside(t, s),
    ensures
        same_shape(exchange(t, s), t),
        table_cells(exchange(t, s)) == table_cells(t),
{
    broadcast use vstd::multiset::group_multiset_axioms;
    if !(s.0 == s.2 && s.1 == s.3) {
        let a = t[s.0][s.1];
        let b = t[s.2][s.3];
        let t1 = t.update(s.0, t[s.0].update(s.1, b));
        lemma_cells_update(t, s.0, s.1, b);
        assert(t1[s.2][s.3] == b) by {
            if s.0 == s.2 {
                assert(s.1 != s.3);
            }
        }
        lemma_cells_update(t1, s.2, s.3, a);
        lemma_cells_count(t, s.0, s.1);
        lemma_cells_count(t, s.2, s.3);
        assert(table_cells(exchange(t, s)) =~= table_cells(t));
    }
}

/// The exchanges of one polynomial, from a table of the accepted shape,
/// keep that shape and the table's cells.
proof fn lemma_row_swaps_keep<T>(
    t0: Seq<Seq<T>>,
    t: Seq<Seq<T>>,
    shapes: Seq<Vec<usize>>,
    n_inp: Seq<usize>,
    n_out: nat,
    i: int,
    k: nat,
    j: nat,
)
    requires
        swap_for_concat_accepts(t0, shapes, n_inp, n_out),
        0 <= i < poly_counts(shapes)[0],
        k <= shapes.len(),
        j > 0 ==> k < shapes.len() && j <= last_dims(shapes)[k as int],
        same_shape(t, t0),
    ensures
        same_shape(concat_row_swaps(t, shapes, n_inp, n_out, i, k, j), t0),
        table_cells(concat_row_swaps(t, shapes, n_inp, n_out, i, k, j)) == table_cells(t),
    decreases k, j,
{
    if j > 0 {
        lemma_row_swaps_keep(t0, t, shapes, n_inp, n_out, i, k, (j - 1) as nat);
        let prev = concat_row_swaps(t, shapes, n_inp, n_out, i, k, (j - 1) as nat);
        let sw = concat_swap(shapes, n_inp, n_out, i, k as int, j - 1);
        assert(swap_inside(t0, sw));
        lemma_inside_same_shape(prev, t0, sw);
        lemma_exchange_keeps(prev, sw);
        let next = exchange(prev, sw);
        assert forall|r: int| 0 <= r < next.len() implies #[trigger] next[r].len() == t0[r].len() by {
            assert(next[r].len() == prev[r].len());
        }
    } else if k > 0 {
        lemma_row_swaps_keep(t0, t, shapes, n_inp, n_out, i, (k - 1) as nat, last_dims(shapes)[k - 1]);
    }
}

/// The exchanges that `swap_for_concat` makes only move cells: the table
/// keeps its shape (as many rows, each as long) and the multiset of its
/// cells.
pub proof fn concat_swaps_permute<T>(t: Seq<Seq<T>>, shapes: Seq<Vec<usize>>, n_inp: Seq<usize>, n_out: nat)
    requires
        swap_for_concat_accepts(t, shapes, n_inp, n_out),
    ensures
        same_shape(concat_swaps(t, shapes, n_inp, n_out, poly_counts(shapes)[0]), t),
        table_cells(concat_swaps(t, shapes, n_inp, n_out, poly_counts(shapes)[0])) == table_cells(t),
{
    lemma_swaps_keep(t, shapes, n_inp, n_out, poly_counts(shapes)[0]);
}

proof fn lemma_swaps_keep<T>(t: Seq<Seq<T>>, shapes: Seq<Vec<usize>>, n_inp: Seq<usize>, n_out: nat, i: nat)
    requires
        swap_for_concat_accepts(t, shapes, n_inp, n_out),
        i <= poly_counts(shapes)[0],
    ensures
        same_shape(concat_swaps(t, shapes, n_inp, n_out, i), t),
        table_cells(concat_swaps(t, shapes, n_inp, n_out, i)) == table_cells(t),
    decreases i,
{
    if i > 0 {
        lemma_swaps_keep(t, shapes, n_inp, n_out, (i - 1) as nat);
        lemma_row_swaps_keep(t, concat_swaps(t, shapes, n_inp, n_out, (i - 1) as nat), shapes, n_inp, n_out, i - 1, shapes.len(), 0);
    } else {
        assert forall|r: int| 0 <= r < t.len() implies #[trigger] t[r].len() == t[r].len() by {}
    }
}

} // verus!
