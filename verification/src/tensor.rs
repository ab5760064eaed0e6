//! Dense tensors in row-major order, and their reshaping, slicing and padding.
use vstd::prelude::*;

verus! {

/// Number of elements of a tensor of the given shape.
pub open spec fn shape_size(s: Seq<usize>) -> nat
    decreases s.len(),
{
    if s.len() == 0 {
        1
    } else {
        (s[0] as nat) * shape_size(s.drop_first())
    }
}

/// Every trailing part of the shape has a size that fits in a `usize`.
pub open spec fn suffix_sizes_fit(s: Seq<usize>) -> bool {
    forall|k: int| 0 <= k <= s.len() ==> #[trigger] shape_size(s.skip(k)) <= usize::MAX
}

/// A trailing part of a shape with at least one element has no more
/// elements than the whole shape.
proof fn lemma_suffix_size_le(s: Seq<usize>, k: int)
    requires
        shape_size(s) > 0,
        0 <= k <= s.len(),
    ensures
        shape_size(s.skip(k)) <= shape_size(s),
    decreases s.len(),
{
    if k == 0 {
        assert(s.skip(0) =~= s);
    } else {
        let t = s.drop_first();
        let h = s[0] as nat;
        assert(shape_size(s) == h * shape_size(t));
        assert(h > 0 && shape_size(t) > 0) by (nonlinear_arith)
            requires
                shape_size(s) == h * shape_size(t),
                shape_size(s) > 0,
        ;
        lemma_suffix_size_le(t, k - 1);
        assert(t.skip(k - 1) =~= s.skip(k));
        assert(shape_size(t) <= h * shape_size(t)) by (nonlinear_arith)
            requires
                h > 0,
        ;
    }
}

/// A shape with at least one element, whose elements fit in a `usize`, has
/// every trailing part fit too.
pub proof fn lemma_suffix_sizes_fit(s: Seq<usize>)
    requires
        0 < shape_size(s) <= usize::MAX,
    ensures
        suffix_sizes_fit(s),
{
    assert forall|k: int| 0 <= k <= s.len() implies #[trigger] shape_size(s.skip(k)) <= usize::MAX by {
        lemma_suffix_size_le(s, k);
    }
}

/// A tensor: its shape, and its elements in row-major order.
#[derive(Debug)]
pub struct Tensor<T> {
    pub shape: Vec<usize>,
    pub data: Vec<T>,
}

impl<T> Tensor<T> {
    /// The number of elements matches the shape.
    pub open spec fn wf(&self) -> bool {
        self.data@.len() == shape_size(self.shape@)
    }

    /// Number of dimensions.
    pub open spec fn ndim(&self) -> nat {
        self.shape@.len()
    }
}

/// Unfolds the size of a trailing part of a shape by one dimension.
pub proof fn lemma_skip_size(s: Seq<usize>, k: int)
    requires
        0 <= k < s.len(),
    ensures
        shape_size(s.skip(k)) == (s[k] as nat) * shape_size(s.skip(k + 1)),
{
    assert(s.skip(k).drop_first() =~= s.skip(k + 1));
}

/// The size of a trailing part of a shape.
pub fn suffix_size(s: &Vec<usize>, from: usize) -> (r: usize)
    requires
        from <= s.len(),
        suffix_sizes_fit(s@),
    ensures
        r == shape_size(s@.skip(from as int)),
{
    let mut acc: usize = 1;
    let mut k = s.len();
    proof {
        assert(s@.skip(k as int) =~= Seq::<usize>::empty());
    }
    while k > from
        invariant
            from <= k <= s.len(),
            suffix_sizes_fit(s@),
            acc == shape_size(s@.skip(k as int)),
        decreases k,
    {
        proof {
            lemma_skip_size(s@, k - 1);
            assert(shape_size(s@.skip(k - 1)) <= usize::MAX);
        }
        acc = s[k - 1] * acc;
        k = k - 1;
    }
    acc
}

/// The number of elements of a shape.
pub fn num_elements(s: &Vec<usize>) -> (r: usize)
    requires
        suffix_sizes_fit(s@),
    ensures
        r == shape_size(s@),
{
    proof {
        assert(s@.skip(0) =~= s@);
    }
    suffix_size(s, 0)
}

/// `n` copies of `x`.
pub open spec fn repeat<T>(x: T, n: nat) -> Seq<T> {
    Seq::new(n, |_i: int| x)
}

/// The first `n` blocks of the tensor of shape `dst_shape` whose element at each
/// index is the element of `data` (of shape `src_shape`) at that index, or `fill`
/// where the index lies outside `src_shape`; a block is one index of the first
/// dimension.
pub open spec fn resized_upto<T>(data: Seq<T>, src_shape: Seq<usize>, dst_shape: Seq<usize>, fill: T, n: nat) -> Seq<T>
    decreases src_shape.len(), n,
{
    if src_shape.len() == 0 || dst_shape.len() != src_shape.len() {
        data
    } else if n == 0 {
        Seq::empty()
    } else {
        let i = n - 1;
        let ob = shape_size(src_shape.drop_first());
        let block = if i < src_shape[0] {
            resized_upto(
                data.subrange(i * ob, i * ob + ob),
                src_shape.drop_first(),
                dst_shape.drop_first(),
                fill,
                if dst_shape.len() > 1 {
                    dst_shape[1] as nat
                } else {
                    0
                },
            )
        } else {
            repeat(fill, shape_size(dst_shape.drop_first()))
        };
        resized_upto(data, src_shape, dst_shape, fill, (n - 1) as nat) + block
    }
}

/// The tensor of shape `dst_shape` that agrees with `data` (of shape `src_shape`) on the
/// indices both shapes hold and has `fill` elsewhere.
pub open spec fn resized<T>(data: Seq<T>, src_shape: Seq<usize>, dst_shape: Seq<usize>, fill: T) -> Seq<T> {
    resized_upto(
        data,
        src_shape,
        dst_shape,
        fill,
        if dst_shape.len() > 0 {
            dst_shape[0] as nat
        } else {
            0
        },
    )
}

/// The first `n` blocks of a resized tensor hold `n` times the size of one
/// block of the new shape.
pub proof fn lemma_resized_len<T>(data: Seq<T>, src_shape: Seq<usize>, dst_shape: Seq<usize>, fill: T, n: nat)
    requires
        data.len() == shape_size(src_shape),
        src_shape.len() == dst_shape.len(),
        src_shape.len() > 0 ==> n <= dst_shape[0],
    ensures
        src_shape.len() > 0 ==> resized_upto(data, src_shape, dst_shape, fill, n).len() == n * shape_size(
            dst_shape.drop_first(),
        ),
        src_shape.len() == 0 ==> resized_upto(data, src_shape, dst_shape, fill, n) == data,
    decreases src_shape.len(), n,
{
    if src_shape.len() > 0 && n > 0 {
        let i = n - 1;
        let ob = shape_size(src_shape.drop_first());
        let nb = shape_size(dst_shape.drop_first());
        lemma_resized_len(data, src_shape, dst_shape, fill, (n - 1) as nat);
        let nn: nat = if dst_shape.len() > 1 {
            dst_shape[1] as nat
        } else {
            0
        };
        let block = if i < src_shape[0] {
            resized_upto(
                data.subrange(i * ob, i * ob + ob),
                src_shape.drop_first(),
                dst_shape.drop_first(),
                fill,
                nn,
            )
        } else {
            repeat(fill, nb)
        };
        assert(resized_upto(data, src_shape, dst_shape, fill, n) == resized_upto(
            data,
            src_shape,
            dst_shape,
            fill,
            (n - 1) as nat,
        ) + block);
        if i < src_shape[0] {
            assert(i * ob + ob <= src_shape[0] * ob) by (nonlinear_arith)
                requires
                    i < src_shape[0],
            ;
            let sub = data.subrange(i * ob, i * ob + ob);
            lemma_resized_len(sub, src_shape.drop_first(), dst_shape.drop_first(), fill, nn);
            if dst_shape.len() > 1 {
                assert(nb == nn * shape_size(dst_shape.drop_first().drop_first()));
            } else {
                assert(dst_shape.drop_first().len() == 0);
                assert(nb == 1);
                assert(ob == 1);
            }
        }
        assert(block.len() == nb);
        assert((n - 1) * nb + nb == n * nb) by (nonlinear_arith);
    } else if src_shape.len() > 0 {
        assert(n * shape_size(dst_shape.drop_first()) == 0) by (nonlinear_arith)
            requires
                n == 0,
        ;
    }
}

/// A resized tensor has as many elements as its new shape.
pub proof fn lemma_resized_full_len<T>(data: Seq<T>, src_shape: Seq<usize>, dst_shape: Seq<usize>, fill: T)
    requires
        data.len() == shape_size(src_shape),
        src_shape.len() == dst_shape.len(),
    ensures
        resized(data, src_shape, dst_shape, fill).len() == shape_size(dst_shape),
{
    lemma_resized_len(data, src_shape, dst_shape, fill, if dst_shape.len() > 0 {
        dst_shape[0] as nat
    } else {
        0
    });
}

/// Appends `n` copies of `x`.
fn push_repeat<T: Copy>(out: &mut Vec<T>, x: T, n: usize)
    ensures
        final(out)@ == old(out)@ + repeat(x, n as nat),
{
    let mut i: usize = 0;
    while i < n
        invariant
            i <= n,
            out@ == old(out)@ + repeat(x, i as nat),
        decreases n - i,
    {
        out.push(x);
        i = i + 1;
        proof {
            assert(out@ =~= old(out)@ + repeat(x, i as nat));
        }
    }
}

/// Appends to `out` the resizing of the block of `data` that starts at
/// `start` and has shape `src_shape[depth..]` to the shape `dst_shape[depth..]`.
fn resize_into<T: Copy>(
    data: &Vec<T>,
    start: usize,
    src_shape: &Vec<usize>,
    dst_shape: &Vec<usize>,
    depth: usize,
    fill: T,
    out: &mut Vec<T>,
)
    requires
        src_shape.len() == dst_shape.len(),
        depth <= src_shape.len(),
        suffix_sizes_fit(src_shape@),
        suffix_sizes_fit(dst_shape@),
        start + shape_size(src_shape@.skip(depth as int)) <= data.len(),
        old(out)@.len() + shape_size(dst_shape@.skip(depth as int)) <= usize::MAX,
    ensures
        final(out)@ == old(out)@ + resized(
            data@.subrange(start as int, start + shape_size(src_shape@.skip(depth as int))),
            src_shape@.skip(depth as int),
            dst_shape@.skip(depth as int),
            fill,
        ),
    decreases src_shape.len() - depth,
{
    let ghost olds = src_shape@.skip(depth as int);
    let ghost news = dst_shape@.skip(depth as int);
    let ghost block = data@.subrange(start as int, start + shape_size(olds));
    if depth == src_shape.len() {
        proof {
            assert(olds.len() == 0);
        }
        out.push(data[start]);
        proof {
            assert(block =~= seq![data@[start as int]]);
            assert(out@ =~= old(out)@ + block);
        }
        return;
    }
    let ob = suffix_size(src_shape, depth + 1);
    let nb = suffix_size(dst_shape, depth + 1);
    proof {
        assert(olds.drop_first() =~= src_shape@.skip(depth + 1));
        assert(news.drop_first() =~= dst_shape@.skip(depth + 1));
        lemma_skip_size(src_shape@, depth as int);
        lemma_skip_size(dst_shape@, depth as int);
        assert(news.len() > 1 ==> news[1] == dst_shape@[depth + 1]);
    }
    let n0 = dst_shape[depth];
    let o0 = src_shape[depth];
    let mut i: usize = 0;
    while i < n0
        invariant
            src_shape.len() == dst_shape.len(),
            depth < src_shape.len(),
            suffix_sizes_fit(src_shape@),
            suffix_sizes_fit(dst_shape@),
            olds == src_shape@.skip(depth as int),
            news == dst_shape@.skip(depth as int),
            olds.drop_first() == src_shape@.skip(depth + 1),
            news.drop_first() == dst_shape@.skip(depth + 1),
            block == data@.subrange(start as int, start + shape_size(olds)),
            start + shape_size(olds) <= data.len(),
            ob == shape_size(src_shape@.skip(depth + 1)),
            nb == shape_size(dst_shape@.skip(depth + 1)),
            shape_size(olds) == o0 * ob,
            shape_size(news) == n0 * nb,
            n0 == dst_shape@[depth as int],
            o0 == src_shape@[depth as int],
            news.len() > 1 ==> news[1] == dst_shape@[depth + 1],
            i <= n0,
            old(out)@.len() + shape_size(news) <= usize::MAX,
            out@ == old(out)@ + resized_upto(block, olds, news, fill, i as nat),
        decreases n0 - i,
    {
        proof {
            assert(i * nb + nb <= n0 * nb) by (nonlinear_arith)
                requires
                    i < n0,
            ;
            lemma_resized_len(block, olds, news, fill, i as nat);
        }
        if i < o0 {
            proof {
                assert(i * ob + ob <= o0 * ob) by (nonlinear_arith)
                    requires
                        i < o0,
                ;
                assert(src_shape@.skip(depth + 1).skip(0) =~= src_shape@.skip(depth + 1));
            }
            let ghost before = out@;
            resize_into(data, start + i * ob, src_shape, dst_shape, depth + 1, fill, out);
            proof {
                let sub = block.subrange(i * ob, i * ob + ob);
                assert(sub =~= data@.subrange(
                    start + i * ob,
                    start + i * ob + shape_size(src_shape@.skip(depth + 1)),
                ));
                let nn: nat = if news.len() > 1 {
                    news[1] as nat
                } else {
                    0
                };
                let nskip = dst_shape@.skip(depth + 1);
                assert(nn == (if nskip.len() > 0 {
                    nskip[0] as nat
                } else {
                    0
                }));
            }
        } else {
            push_repeat(out, fill, nb);
        }
        i = i + 1;
        proof {
            assert(out@ =~= old(out)@ + resized_upto(block, olds, news, fill, i as nat));
        }
    }
}

/// Resizes a tensor to shape `dst_shape`: the element at each index that both
/// shapes hold is kept, and every other index holds `fill`. This both cuts a
/// tensor down to a smaller shape and pads it out to a larger one.
pub fn resize<T: Copy>(t: &Tensor<T>, dst_shape: &Vec<usize>, fill: T) -> (r: Tensor<T>)
    requires
        t.wf(),
        dst_shape.len() == t.shape.len(),
        suffix_sizes_fit(t.shape@),
        suffix_sizes_fit(dst_shape@),
    ensures
        r.wf(),
        r.shape@ == dst_shape@,
        r.data@ == resized(t.data@, t.shape@, dst_shape@, fill),
{
    let mut out: Vec<T> = Vec::new();
    proof {
        assert(t.shape@.skip(0) =~= t.shape@);
        assert(dst_shape@.skip(0) =~= dst_shape@);
        assert(shape_size(dst_shape@.skip(0)) <= usize::MAX);
    }
    resize_into(&t.data, 0, &t.shape, dst_shape, 0, fill, &mut out);
    proof {
        assert(t.data@.subrange(0, shape_size(t.shape@) as int) =~= t.data@);
        assert(out@ =~= resized(t.data@, t.shape@, dst_shape@, fill));
        lemma_resized_full_len(t.data@, t.shape@, dst_shape@, fill);
    }
    Tensor { shape: dst_shape.clone(), data: out }
}

/// The smallest power of two that is at least `n`, searching upwards from `p`.
pub open spec fn next_pow_from(p: nat, n: nat) -> nat
    decreases if n > p { n - p } else { 0 },
{
    if p == 0 || p >= n {
        p
    } else {
        next_pow_from(2 * p, n)
    }
}

/// The smallest power of two that is at least `n` (one for zero).
pub open spec fn next_pow_spec(n: nat) -> nat {
    next_pow_from(1, n)
}

/// Whether `p` is a power of two.
pub open spec fn is_pow2(p: nat) -> bool
    decreases p,
{
    if p == 1 {
        true
    } else if p < 2 || p % 2 != 0 {
        false
    } else {
        is_pow2(p / 2)
    }
}

proof fn lemma_next_pow_from(p: nat, n: nat)
    requires
        p >= 1,
        is_pow2(p),
    ensures
        is_pow2(next_pow_from(p, n)),
        next_pow_from(p, n) >= n,
        next_pow_from(p, n) >= p,
        next_pow_from(p, n) < 2 * n || next_pow_from(p, n) == p,
    decreases if n > p { n - p } else { 0 },
{
    if p < n {
        assert((2 * p) % 2 == 0 && (2 * p) / 2 == p);
        lemma_next_pow_from(2 * p, n);
    }
}

/// The smallest power of two that is at least `n`: it is a power of two, at
/// least `n`, and below `2 * n` unless it is one.
pub proof fn lemma_next_pow(n: nat)
    ensures
        is_pow2(next_pow_spec(n)),
        next_pow_spec(n) >= n,
        next_pow_spec(n) >= 1,
        next_pow_spec(n) == 1 || next_pow_spec(n) < 2 * n,
{
    lemma_next_pow_from(1, n);
}

/// The smallest power of two that is at least `n` (one for zero).
pub fn next_pow(n: usize) -> (r: usize)
    requires
        next_pow_spec(n as nat) <= usize::MAX,
    ensures
        r == next_pow_spec(n as nat),
{
    let mut p: usize = 1;
    proof {
        lemma_next_pow(n as nat);
    }
    while p < n
        invariant
            1 <= p,
            next_pow_spec(n as nat) <= usize::MAX,
            next_pow_from(p as nat, n as nat) == next_pow_spec(n as nat),
        decreases if n > p { n - p } else { 0 },
    {
        proof {
            lemma_next_pow_from_ge(2 * p as nat, n as nat);
        }
        p = 2 * p;
    }
    p
}

proof fn lemma_next_pow_from_ge(p: nat, n: nat)
    ensures
        next_pow_from(p, n) >= p,
    decreases if n > p { n - p } else { 0 },
{
    if p != 0 && p < n {
        lemma_next_pow_from_ge(2 * p, n);
    }
}

/// The shape with every dimension rounded up to a power of two.
pub open spec fn pow2_shape(s: Seq<usize>) -> Seq<usize> {
    s.map_values(|d: usize| next_pow_spec(d as nat) as usize)
}

/// Pads every dimension of a tensor up to a power of two, filling the new
/// positions with `fill`.
pub fn pad_to_pow_of_two<T: Copy>(t: &Tensor<T>, fill: T) -> (r: Tensor<T>)
    requires
        t.wf(),
        suffix_sizes_fit(t.shape@),
        forall|k: int| 0 <= k < t.shape@.len() ==> next_pow_spec(#[trigger] t.shape@[k] as nat) <= usize::MAX,
        suffix_sizes_fit(pow2_shape(t.shape@)),
    ensures
        r.wf(),
        r.shape@ == pow2_shape(t.shape@),
        r.data@ == resized(t.data@, t.shape@, pow2_shape(t.shape@), fill),
{
    let mut shape: Vec<usize> = Vec::new();
    let mut k: usize = 0;
    while k < t.shape.len()
        invariant
            k <= t.shape.len(),
            forall|j: int| 0 <= j < t.shape@.len() ==> next_pow_spec(#[trigger] t.shape@[j] as nat) <= usize::MAX,
            shape@ == pow2_shape(t.shape@).subrange(0, k as int),
        decreases t.shape.len() - k,
    {
        let d = next_pow(t.shape[k]);
        shape.push(d);
        k = k + 1;
        proof {
            assert(shape@ =~= pow2_shape(t.shape@).subrange(0, k as int));
        }
    }
    proof {
        assert(shape@ =~= pow2_shape(t.shape@));
    }
    resize(t, &shape, fill)
}

/// The position in row-major order of the index `idx` in a tensor of the
/// given shape.
pub open spec fn offset_of(s: Seq<usize>, idx: Seq<usize>) -> nat
    decreases s.len(),
{
    if s.len() == 0 || idx.len() == 0 {
        0
    } else {
        (idx[0] as nat) * shape_size(s.drop_first()) + offset_of(s.drop_first(), idx.drop_first())
    }
}

/// Whether `idx` is an index of a tensor of the given shape.
pub open spec fn index_in(s: Seq<usize>, idx: Seq<usize>) -> bool {
    idx.len() == s.len() && forall|k: int| 0 <= k < s.len() ==> #[trigger] idx[k] < s[k]
}

/// An index inside a shape lies before the end of the tensor.
pub proof fn lemma_offset_bound(s: Seq<usize>, idx: Seq<usize>)
    requires
        index_in(s, idx),
    ensures
        offset_of(s, idx) < shape_size(s),
    decreases s.len(),
{
    if s.len() > 0 {
        let rest = shape_size(s.drop_first());
        assert(index_in(s.drop_first(), idx.drop_first())) by {
            assert forall|k: int| 0 <= k < s.drop_first().len() implies #[trigger] idx.drop_first()[k]
                < s.drop_first()[k] by {
                assert(idx[k + 1] < s[k + 1]);
            }
        }
        lemma_offset_bound(s.drop_first(), idx.drop_first());
        assert(idx[0] < s[0]);
        assert((idx[0] as nat) * rest + rest <= (s[0] as nat) * rest) by (nonlinear_arith)
            requires
                idx[0] < s[0],
        ;
    }
}

/// The position in row-major order of an index of a tensor.
pub fn offset(s: &Vec<usize>, idx: &Vec<usize>) -> (r: usize)
    requires
        index_in(s@, idx@),
        suffix_sizes_fit(s@),
    ensures
        r == offset_of(s@, idx@),
        r < shape_size(s@),
{
    let n = s.len();
    let mut acc: usize = 0;
    let mut k: usize = n;
    proof {
        assert(s@.skip(n as int) =~= Seq::<usize>::empty());
    }
    while k > 0
        invariant
            n == s.len(),
            k <= n,
            index_in(s@, idx@),
            suffix_sizes_fit(s@),
            acc == offset_of(s@.skip(k as int), idx@.skip(k as int)),
            acc < shape_size(s@.skip(k as int)),
        decreases k,
    {
        let stride = suffix_size(s, k);
        proof {
            let sk = s@.skip(k - 1);
            let ik = idx@.skip(k - 1);
            assert(sk.drop_first() =~= s@.skip(k as int));
            assert(ik.drop_first() =~= idx@.skip(k as int));
            lemma_skip_size(s@, k - 1);
            assert(idx@[k - 1] < s@[k - 1]);
            assert((idx@[k - 1] as nat) * stride + acc < (s@[k - 1] as nat) * stride) by (nonlinear_arith)
                requires
                    idx@[k - 1] < s@[k - 1],
                    acc < stride,
            ;
            assert(shape_size(sk) <= usize::MAX);
        }
        acc = idx[k - 1] * stride + acc;
        k = k - 1;
    }
    proof {
        assert(s@.skip(0) =~= s@);
        assert(idx@.skip(0) =~= idx@);
    }
    acc
}

/// The size of a shape is the size of its first `k` dimensions times the size
/// of the rest.
pub proof fn lemma_size_split(s: Seq<usize>, k: int)
    requires
        0 <= k <= s.len(),
    ensures
        shape_size(s) == shape_size(s.take(k)) * shape_size(s.skip(k)),
    decreases k,
{
    if k == 0 {
        assert(s.take(0) =~= Seq::<usize>::empty());
        assert(s.skip(0) =~= s);
    } else {
        lemma_size_split(s.drop_first(), k - 1);
        assert(s.take(k).drop_first() =~= s.drop_first().take(k - 1));
        assert(s.skip(k) =~= s.drop_first().skip(k - 1));
        let a = s[0] as nat;
        let b = shape_size(s.drop_first().take(k - 1));
        let c = shape_size(s.skip(k));
        assert(a * (b * c) == (a * b) * c) by (nonlinear_arith);
    }
}

/// A shape of one dimension of length `n` has `n` elements.
pub proof fn lemma_single_size(n: usize)
    ensures
        shape_size(seq![n]) == n,
{
    let s = seq![n];
    assert(s.drop_first() =~= Seq::<usize>::empty());
    assert(shape_size(s.drop_first()) == 1);
    assert(shape_size(s) == (s[0] as nat) * shape_size(s.drop_first()));
}

/// The size of the first `k` dimensions of a shape.
pub fn prefix_size(s: &Vec<usize>, k: usize) -> (r: usize)
    requires
        k <= s.len(),
        forall|j: int| 0 <= j <= k ==> #[trigger] shape_size(s@.take(j)) <= usize::MAX,
    ensures
        r == shape_size(s@.take(k as int)),
{
    let mut acc: usize = 1;
    let mut j: usize = 0;
    proof {
        assert(s@.take(0) =~= Seq::<usize>::empty());
    }
    while j < k
        invariant
            k <= s.len(),
            j <= k,
            forall|m: int| 0 <= m <= k ==> #[trigger] shape_size(s@.take(m)) <= usize::MAX,
            acc == shape_size(s@.take(j as int)),
        decreases k - j,
    {
        proof {
            let t = s@.take(j + 1);
            lemma_size_split(t, j as int);
            assert(t.take(j as int) =~= s@.take(j as int));
            assert(t.skip(j as int) =~= seq![s@[j as int]]);
            lemma_single_size(s@[j as int]);
            assert(shape_size(s@.take(j + 1)) <= usize::MAX);
        }
        acc = acc * s[j];
        j = j + 1;
    }
    acc
}

/// The index of the element at row-major position `j` of a tensor of the
/// given shape.
pub open spec fn index_of(s: Seq<usize>, j: nat) -> Seq<usize>
    decreases s.len(),
{
    if s.len() == 0 {
        Seq::empty()
    } else {
        let t = shape_size(s.drop_first());
        seq![(j / t) as usize] + index_of(s.drop_first(), j % t)
    }
}

/// The index at a position inside a tensor lies inside the shape, and lies
/// at that position.
pub proof fn lemma_index_of(s: Seq<usize>, j: nat)
    requires
        j < shape_size(s),
    ensures
        index_in(s, index_of(s, j)),
        offset_of(s, index_of(s, j)) == j,
    decreases s.len(),
{
    if s.len() > 0 {
        let t = shape_size(s.drop_first());
        assert(t > 0) by (nonlinear_arith)
            requires
                j < (s[0] as nat) * t,
        ;
        vstd::arithmetic::div_mod::lemma_fundamental_div_mod(j as int, t as int);
        vstd::arithmetic::div_mod::lemma_mod_pos_bound(j as int, t as int);
        assert(j / t < s[0]) by (nonlinear_arith)
            requires
                j < (s[0] as nat) * t,
                t > 0,
                j == t * (j / t) + j % t,
                j % t >= 0,
        ;
        lemma_index_of(s.drop_first(), j % t);
        let idx = index_of(s, j);
        assert(idx.drop_first() =~= index_of(s.drop_first(), j % t));
        assert forall|k: int| 0 <= k < s.len() implies #[trigger] idx[k] < s[k] by {
            if k > 0 {
                assert(idx[k] == idx.drop_first()[k - 1]);
            }
        }
        assert((j / t) * t == t * (j / t)) by (nonlinear_arith);
    }
}

/// The index of the element at a row-major position.
pub fn index_at(s: &Vec<usize>, j: usize) -> (r: Vec<usize>)
    requires
        j < shape_size(s@),
        suffix_sizes_fit(s@),
    ensures
        r@ == index_of(s@, j as nat),
{
    let n = s.len();
    let mut r: Vec<usize> = Vec::new();
    let mut rem = j;
    let mut k: usize = 0;
    proof {
        assert(s@.skip(0) =~= s@);
    }
    while k < n
        invariant
            n == s.len(),
            suffix_sizes_fit(s@),
            k <= n,
            rem < shape_size(s@.skip(k as int)),
            r@ + index_of(s@.skip(k as int), rem as nat) == index_of(s@, j as nat),
        decreases n - k,
    {
        let stride = suffix_size(s, k + 1);
        proof {
            let sk = s@.skip(k as int);
            assert(sk.drop_first() =~= s@.skip(k + 1));
            lemma_skip_size(s@, k as int);
            assert(stride > 0) by (nonlinear_arith)
                requires
                    rem < (s@[k as int] as nat) * stride,
            ;
            vstd::arithmetic::div_mod::lemma_fundamental_div_mod(rem as int, stride as int);
            vstd::arithmetic::div_mod::lemma_mod_pos_bound(rem as int, stride as int);
            assert(rem / stride < s@[k as int]) by (nonlinear_arith)
                requires
                    rem < (s@[k as int] as nat) * stride,
                    stride > 0,
                    rem == stride * (rem / stride) + rem % stride,
                    rem % stride >= 0,
            ;
            assert(index_of(sk, rem as nat) == seq![(rem / stride) as usize] + index_of(
                s@.skip(k + 1),
                (rem % stride) as nat,
            ));
        }
        r.push(rem / stride);
        rem = rem % stride;
        proof {
            assert(r@ + index_of(s@.skip(k + 1), rem as nat) =~= index_of(s@, j as nat));
        }
        k = k + 1;
    }
    proof {
        assert(s@.skip(n as int) =~= Seq::<usize>::empty());
        assert(r@ + Seq::<usize>::empty() =~= r@);
    }
    r
}

/// Whether two indices are equal.
pub fn same_index(a: &Vec<usize>, b: &Vec<usize>) -> (r: bool)
    ensures
        r == (a@ == b@),
{
    if a.len() != b.len() {
        return false;
    }
    let mut k: usize = 0;
    while k < a.len()
        invariant
            a.len() == b.len(),
            k <= a.len(),
            forall|m: int| 0 <= m < k ==> a@[m] == b@[m],
        decreases a.len() - k,
    {
        if a[k] != b[k] {
            return false;
        }
        k = k + 1;
    }
    proof {
        assert(a@ =~= b@);
    }
    true
}

/// The offset of a trailing part of an index is at most that of the whole.
pub proof fn lemma_offset_skip(s: Seq<usize>, idx: Seq<usize>, k: int)
    requires
        idx.len() == s.len(),
        0 <= k <= s.len(),
    ensures
        offset_of(s.skip(k), idx.skip(k)) <= offset_of(s, idx),
    decreases k,
{
    if k > 0 {
        lemma_offset_skip(s.drop_first(), idx.drop_first(), k - 1);
        assert(s.skip(k) =~= s.drop_first().skip(k - 1));
        assert(idx.skip(k) =~= idx.drop_first().skip(k - 1));
    } else {
        assert(s.skip(0) =~= s);
        assert(idx.skip(0) =~= idx);
    }
}

/// The row-major position of an index, which need not lie inside the shape.
pub fn offset_any(s: &Vec<usize>, idx: &Vec<usize>) -> (r: usize)
    requires
        idx.len() == s.len(),
        suffix_sizes_fit(s@),
        offset_of(s@, idx@) <= usize::MAX,
    ensures
        r == offset_of(s@, idx@),
{
    let n = s.len();
    let mut acc: usize = 0;
    let mut k: usize = n;
    proof {
        assert(s@.skip(n as int) =~= Seq::<usize>::empty());
    }
    while k > 0
        invariant
            n == s.len(),
            idx.len() == n,
            k <= n,
            suffix_sizes_fit(s@),
            offset_of(s@, idx@) <= usize::MAX,
            acc == offset_of(s@.skip(k as int), idx@.skip(k as int)),
        decreases k,
    {
        let stride = suffix_size(s, k);
        proof {
            let sk = s@.skip(k - 1);
            let ik = idx@.skip(k - 1);
            assert(sk.drop_first() =~= s@.skip(k as int));
            assert(ik.drop_first() =~= idx@.skip(k as int));
            lemma_offset_skip(s@, idx@, k - 1);
            assert(acc <= (idx@[k - 1] as nat) * stride + acc);
        }
        acc = idx[k - 1] * stride + acc;
        k = k - 1;
    }
    proof {
        assert(s@.skip(0) =~= s@);
        assert(idx@.skip(0) =~= idx@);
    }
    acc
}

} // verus!

verus! {

/// The index at the position of an index is that index: `index_of` undoes
/// `offset_of` on the indices of a shape (and `lemma_index_of` shows the
/// converse on its positions).
pub proof fn index_of_offset(s: Seq<usize>, idx: Seq<usize>)
    requires
        index_in(s, idx),
    ensures
        index_of(s, offset_of(s, idx)) == idx,
    decreases s.len(),
{
    if s.len() > 0 {
        let s1 = s.drop_first();
        let i1 = idx.drop_first();
        assert(index_in(s1, i1)) by {
            assert forall|k: int| 0 <= k < s1.len() implies #[trigger] i1[k] < s1[k] by {
                assert(idx[k + 1] < s[k + 1]);
            }
        }
        lemma_offset_bound(s1, i1);
        index_of_offset(s1, i1);
        let t = shape_size(s1);
        let o1 = offset_of(s1, i1);
        vstd::arithmetic::div_mod::lemma_fundamental_div_mod_converse(
            ((idx[0] as nat) * t + o1) as int,
            t as int,
            idx[0] as int,
            o1 as int,
        );
        assert((idx[0] as nat) * t == (idx[0] as int) * (t as int));
        assert(index_of(s, offset_of(s, idx)) =~= idx);
    } else {
        assert(idx =~= Seq::<usize>::empty());
    }
}

} // verus!

verus! {

/// Block `i` of `resized_upto(data, src, dst, fill, n)`: the resizing of
/// block `i` of `data` where `data` has one, and `fill` elsewhere.
pub open spec fn resize_block<T>(data: Seq<T>, src: Seq<usize>, dst: Seq<usize>, fill: T, i: int) -> Seq<T> {
    let ob = shape_size(src.drop_first());
    if i < src[0] {
        resized_upto(
            data.subrange(i * ob, i * ob + ob),
            src.drop_first(),
            dst.drop_first(),
            fill,
            if dst.len() > 1 {
                dst[1] as nat
            } else {
                0
            },
        )
    } else {
        repeat(fill, shape_size(dst.drop_first()))
    }
}

/// The elements of block `i` of a resizing are the resizing of block `i`.
proof fn lemma_resize_block<T>(data: Seq<T>, src: Seq<usize>, dst: Seq<usize>, fill: T, n: nat, i: int)
    requires
        data.len() == shape_size(src),
        src.len() == dst.len(),
        src.len() > 0,
        n <= dst[0],
        0 <= i < n,
    ensures
        ({
            let nb = shape_size(dst.drop_first());
            resized_upto(data, src, dst, fill, n).subrange(i * nb, i * nb + nb) == resize_block(data, src, dst, fill, i)
        }),
    decreases n,
{
    let nb = shape_size(dst.drop_first());
    let whole = resized_upto(data, src, dst, fill, n);
    let prev = resized_upto(data, src, dst, fill, (n - 1) as nat);
    assert(whole == prev + resize_block(data, src, dst, fill, n - 1));
    lemma_resized_len(data, src, dst, fill, (n - 1) as nat);
    lemma_resized_len(data, src, dst, fill, n);
    assert(prev.len() == (n - 1) * nb);
    assert(whole.len() == n * nb);
    assert((n - 1) * nb + nb == n * nb) by (nonlinear_arith);
    if i == n - 1 {
        assert(whole.subrange(i * nb, i * nb + nb) =~= resize_block(data, src, dst, fill, i));
    } else {
        lemma_resize_block(data, src, dst, fill, (n - 1) as nat, i);
        assert(i * nb + nb <= (n - 1) * nb) by (nonlinear_arith)
            requires
                i < n - 1,
        ;
        assert(whole.subrange(i * nb, i * nb + nb) =~= prev.subrange(i * nb, i * nb + nb));
    }
}

/// Each dimension of `s` is at most that of `t`.
pub open spec fn shape_within(s: Seq<usize>, t: Seq<usize>) -> bool {
    s.len() == t.len() && forall|k: int| 0 <= k < s.len() ==> #[trigger] s[k] <= t[k]
}

proof fn lemma_resize_back_upto<T>(data: Seq<T>, s: Seq<usize>, t: Seq<usize>, f: T, k: nat)
    requires
        data.len() == shape_size(s),
        shape_within(s, t),
        s.len() > 0,
        k <= s[0],
    ensures
        resized_upto(resized(data, s, t, f), t, s, f, k) == data.take((k * shape_size(s.drop_first())) as int),
    decreases s.len(), k,
{
    let ob = shape_size(s.drop_first());
    let tb = shape_size(t.drop_first());
    let big = resized(data, s, t, f);
    lemma_resized_full_len(data, s, t, f);
    assert(shape_size(t) == (t[0] as nat) * tb);
    if k == 0 {
        assert(0 * ob == 0) by (nonlinear_arith);
        assert(data.take(0) =~= Seq::<T>::empty());
    } else {
        let i = k - 1;
        assert(s[0] <= t[0]);
        lemma_resize_back_upto(data, s, t, f, (k - 1) as nat);
        assert(resized_upto(big, t, s, f, k) == resized_upto(big, t, s, f, (k - 1) as nat) + resize_block(big, t, s, f, i));
        // Block `i` of the larger tensor is block `i` of `data`, grown.
        lemma_resize_block(data, s, t, f, t[0] as nat, i);
        assert(big.subrange(i * tb, i * tb + tb) == resize_block(data, s, t, f, i));
        assert(i * ob + ob <= s[0] * ob) by (nonlinear_arith)
            requires
                i < s[0],
        ;
        let block = data.subrange(i * ob, i * ob + ob);
        let s1 = s.drop_first();
        let t1 = t.drop_first();
        assert(shape_within(s1, t1)) by {
            assert forall|m: int| 0 <= m < s1.len() implies #[trigger] s1[m] <= t1[m] by {
                assert(s[m + 1] <= t[m + 1]);
            }
        }
        assert(resize_block(data, s, t, f, i) == resized(block, s1, t1, f));
        assert(resize_block(big, t, s, f, i) == resized(resized(block, s1, t1, f), t1, s1, f));
        resize_back(block, s1, t1, f);
        assert(((k - 1) as nat) * ob + ob == k * ob) by (nonlinear_arith)
            requires
                k > 0,
        ;
        assert(data.take((((k - 1) as nat) * ob) as int) + block =~= data.take((k * ob) as int));
    }
}

/// Cutting a tensor that was padded out to a larger shape back to its own
/// shape gives it back: `resize` to `t` and back to `s` is the identity when
/// no dimension of `s` is larger than that of `t`. This is how padding to
/// powers of two is undone.
pub proof fn resize_back<T>(data: Seq<T>, s: Seq<usize>, t: Seq<usize>, f: T)
    requires
        data.len() == shape_size(s),
        shape_within(s, t),
    ensures
        resized(resized(data, s, t, f), t, s, f) == data,
    decreases s.len(), if s.len() > 0 {
        s[0] + 1
    } else {
        0
    },
{
    if s.len() == 0 {
    } else {
        lemma_resize_back_upto(data, s, t, f, s[0] as nat);
        assert(shape_size(s) == (s[0] as nat) * shape_size(s.drop_first()));
        assert(data.take(shape_size(s) as int) =~= data);
    }
}

} // verus!

verus! {

/// Padding a tensor to powers of two and cutting it back to its shape gives
/// it back.
pub proof fn cut_undoes_pad<T>(data: Seq<T>, s: Seq<usize>, f: T)
    requires
        data.len() == shape_size(s),
        forall|k: int| 0 <= k < s.len() ==> next_pow_spec(#[trigger] s[k] as nat) <= usize::MAX,
    ensures
        resized(resized(data, s, pow2_shape(s), f), pow2_shape(s), s, f) == data,
{
    assert(shape_within(s, pow2_shape(s))) by {
        assert forall|k: int| 0 <= k < s.len() implies #[trigger] s[k] <= pow2_shape(s)[k] by {
            lemma_next_pow(s[k] as nat);
        }
    }
    resize_back(data, s, pow2_shape(s), f);
}

} // verus!
