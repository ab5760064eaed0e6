//! What a copy constraint's setup computes before its commitments: the
//! partitions of its positions (for each input position, the cycle made of
//! that position and, in order, the output positions that copy it; under no
//! key, one cycle per padding value of the output positions that hold it),
//! the evaluations of the permutation polynomials those cycles define, and
//! the point of the first padding element. The positions of one cycle hold
//! one value in the output of `run`.
use super::copy_constraint::{
    construct_ssig, copy_value, cycle_next, first_pos, flat_index, flat_index_fits, flat_position, holds_index, lemma_first_pos_bound,
    pad_value, pad_values_distinct, part_lookup, partitions_in, partitions_padding, ssig_entry_ok, ssig_row_is, CopyConstraintBasicBlock, Partition,
};
use crate::field::Fe;
use crate::tensor::{
    index_at, index_in, index_of, index_of_offset, lemma_index_of, lemma_offset_bound, lemma_single_size, lemma_size_split,
    num_elements, offset_of, prefix_size, shape_size, suffix_sizes_fit, Tensor,
};
use vstd::prelude::*;

verus! {

/// A position in the flattened polynomials, as a pair of `usize`.
pub open spec fn as_pos(p: (nat, nat)) -> (usize, usize) {
    (p.0 as usize, p.1 as usize)
}

/// The position of input element `k` (in row-major order).
pub open spec fn in_pos(input_dim: Seq<usize>, n: nat, k: nat) -> (usize, usize) {
    as_pos(flat_position(input_dim, index_of(input_dim, k), n))
}

/// The number of polynomials of the input: the size of its dimensions but
/// the last; the output's polynomials come after them.
pub open spec fn out_offset(input_dim: Seq<usize>) -> nat {
    shape_size(input_dim.take(input_dim.len() - 1))
}

/// The position of the output element at index `idx`: the output's
/// polynomials come after the input's.
pub open spec fn idx_out_pos(out_dim: Seq<usize>, input_dim: Seq<usize>, n: nat, idx: Seq<usize>) -> (usize, usize) {
    let p = flat_position(out_dim, idx, n);
    ((p.0 + out_offset(input_dim)) as usize, p.1 as usize)
}

/// The position of output element `j` (in row-major order).
pub open spec fn out_pos(out_dim: Seq<usize>, input_dim: Seq<usize>, n: nat, j: nat) -> (usize, usize) {
    idx_out_pos(out_dim, input_dim, n, index_of(out_dim, j))
}

/// The position of the input element that a permutation entry names.
pub open spec fn perm_pos(input_dim: Seq<usize>, n: nat, e: Option<Vec<usize>>) -> Option<(usize, usize)> {
    match e {
        Some(idx) => Some(as_pos(flat_position(input_dim, idx@, n))),
        None => None,
    }
}

/// The positions of the first `m` output elements that copy the input
/// element at position `key`, in order.
pub open spec fn copies_of(perm: Tensor<Option<Vec<usize>>>, input_dim: Seq<usize>, n: nat, key: (usize, usize), m: nat) -> Seq<
    (usize, usize),
>
    decreases m,
{
    if m == 0 {
        Seq::empty()
    } else {
        copies_of(perm, input_dim, n, key, (m - 1) as nat) + if perm_pos(input_dim, n, perm.data@[m - 1]) == Some(key) {
            seq![out_pos(perm.shape@, input_dim, n, (m - 1) as nat)]
        } else {
            Seq::empty()
        }
    }
}

/// The cycles that `parts` holds under the position of input element `k`
/// once the first `m` output elements are placed: one cycle, the position
/// followed by its copies.
pub open spec fn input_cycle_is(
    parts: Seq<(Option<(usize, usize)>, Partition)>,
    perm: Tensor<Option<Vec<usize>>>,
    input_dim: Seq<usize>,
    n: nat,
    k: nat,
    m: nat,
) -> bool {
    let key = in_pos(input_dim, n, k);
    part_lookup(parts, Some(key)) matches Some(cs) && cs.len() == 1 && cs[0]@ == seq![key] + copies_of(
        perm,
        input_dim,
        n,
        key,
        m,
    )
}

/// Whether `key` is the position of an input element.
pub open spec fn is_input_key(input_dim: Seq<usize>, n: nat, key: Option<(usize, usize)>) -> bool {
    exists|k: nat| k < shape_size(input_dim) && key == Some(#[trigger] in_pos(input_dim, n, k))
}

/// The shapes a copy constraint's partitions can be built for: a permutation
/// that names input elements only, shapes of at least one dimension with a
/// non-empty last one, a domain no smaller than either last dimension, and
/// positions that fit in a `usize`.
pub open spec fn partitions_accept(perm: Tensor<Option<Vec<usize>>>, input_dim: Seq<usize>, n: nat) -> bool {
    let od = perm.shape@;
    &&& perm.wf()
    &&& input_dim.len() >= 1 && od.len() >= 1
    &&& input_dim[input_dim.len() - 1] > 0 && od[od.len() - 1] > 0
    &&& input_dim[input_dim.len() - 1] <= n && od[od.len() - 1] <= n
    &&& n <= usize::MAX
    &&& suffix_sizes_fit(input_dim) && suffix_sizes_fit(od)
    &&& forall|j: nat| j <= input_dim.len() ==> #[trigger] shape_size(input_dim.take(j as int)) <= usize::MAX
    &&& forall|j: nat| j <= od.len() ==> #[trigger] shape_size(od.take(j as int)) <= usize::MAX
    &&& out_offset(input_dim) + shape_size(od.take(od.len() - 1)) <= usize::MAX
    &&& forall|j: int| 0 <= j < perm.data@.len() ==> (#[trigger] perm.data@[j] matches Some(idx) ==> index_in(input_dim, idx@))
}

/// An index inside a shape has a position that `flat_index` can compute,
/// below `(size of the leading dimensions, n)`.
proof fn lemma_flat_fits(shape: Seq<usize>, idx: Seq<usize>, n: nat)
    requires
        index_in(shape, idx),
        shape.len() >= 1,
        shape[shape.len() - 1] > 0,
        shape[shape.len() - 1] <= n <= usize::MAX,
        suffix_sizes_fit(shape),
        forall|j: nat| j <= shape.len() ==> #[trigger] shape_size(shape.take(j as int)) <= usize::MAX,
    ensures
        flat_index_fits(shape, idx, n),
        flat_position(shape, idx, n).0 < shape_size(shape.take(shape.len() - 1)),
        flat_position(shape, idx, n).1 < n,
{
    let nd = shape.len() as int;
    let pre = shape.take(nd - 1);
    let ipre = idx.take(nd - 1);
    assert(index_in(pre, ipre)) by {
        assert forall|k: int| 0 <= k < pre.len() implies #[trigger] ipre[k] < pre[k] by {
            assert(idx[k] < shape[k]);
        }
    }
    lemma_offset_bound(pre, ipre);
    assert(shape_size(pre) <= usize::MAX) by {
        assert(shape_size(shape.take((nd - 1) as nat as int)) <= usize::MAX);
    }
    assert(suffix_sizes_fit(pre)) by {
        assert forall|k: int| 0 <= k <= pre.len() implies #[trigger] shape_size(pre.skip(k)) <= usize::MAX by {
            crate::tensor::lemma_size_split(pre, k);
            let a = shape_size(pre.take(k));
            let b = shape_size(pre.skip(k));
            if a == 0 {
                assert(shape_size(pre) == 0) by (nonlinear_arith)
                    requires
                        shape_size(pre) == a * b,
                        a == 0,
                ;
                assert(ipre.len() == pre.len());
                // An index inside `pre` rules out an empty dimension.
                lemma_offset_bound(pre, ipre);
            }
            assert(b <= a * b) by (nonlinear_arith)
                requires
                    a >= 1,
            ;
        }
    }
    let last = shape[nd - 1] as nat;
    let sp = n / last;
    assert(idx[nd - 1] < last);
    assert((idx[nd - 1] as nat) * sp < n) by (nonlinear_arith)
        requires
            idx[nd - 1] < last,
            last > 0,
            sp == n / last,
            last <= n,
    {
        vstd::arithmetic::div_mod::lemma_fundamental_div_mod(n as int, last as int);
        assert((idx[nd - 1] as nat) * sp <= (last - 1) * sp);
    }
}

} // verus!

verus! {

/// Appending an entry changes only the lookup of a key that had no entry.
proof fn lemma_lookup_push(parts: Seq<(Option<(usize, usize)>, Partition)>, e: (Option<(usize, usize)>, Partition), key: Option<(usize, usize)>)
    ensures
        part_lookup(parts.push(e), key) == if part_lookup(parts, key) is Some {
            part_lookup(parts, key)
        } else if e.0 == key {
            Some(e.1@)
        } else {
            None
        },
    decreases parts.len(),
{
    if parts.len() > 0 {
        assert(parts.push(e).drop_first() =~= parts.drop_first().push(e));
        assert(parts.push(e)[0] == parts[0]);
        lemma_lookup_push(parts.drop_first(), e, key);
    } else {
        let empty = Seq::<(Option<(usize, usize)>, Partition)>::empty();
        assert(parts.push(e).drop_first() =~= empty);
        assert(parts.push(e)[0] == e);
        assert(part_lookup(empty, key) is None);
        assert(part_lookup(parts, key) is None);
        assert(part_lookup(parts.push(e), key) == if e.0 == key {
            Some(e.1@)
        } else {
            part_lookup(empty, key)
        });
    }
}

/// A key whose lookup finds nothing is held by no entry.
proof fn lemma_lookup_none(parts: Seq<(Option<(usize, usize)>, Partition)>, key: Option<(usize, usize)>)
    requires
        part_lookup(parts, key) is None,
    ensures
        forall|i: int| 0 <= i < parts.len() ==> (#[trigger] parts[i]).0 != key,
    decreases parts.len(),
{
    if parts.len() > 0 {
        lemma_lookup_none(parts.drop_first(), key);
        assert forall|i: int| 0 <= i < parts.len() implies (#[trigger] parts[i]).0 != key by {
            if i > 0 {
                assert(parts[i] == parts.drop_first()[i - 1]);
            }
        }
    }
}

/// No two entries hold one key.
pub open spec fn keys_distinct(parts: Seq<(Option<(usize, usize)>, Partition)>) -> bool {
    forall|i: int, j: int| 0 <= i < j < parts.len() ==> (#[trigger] parts[i]).0 != (#[trigger] parts[j]).0
}

/// Replacing the cycles of the first entry with key `k` changes the lookup
/// of `k` only.
proof fn lemma_lookup_update(parts: Seq<(Option<(usize, usize)>, Partition)>, i: int, k: Option<(usize, usize)>, w: Partition, key: Option<(usize, usize)>)
    requires
        0 <= i < parts.len(),
        parts[i].0 == k,
        forall|i2: int| 0 <= i2 < i ==> (#[trigger] parts[i2]).0 != k,
    ensures
        part_lookup(parts.update(i, (k, w)), key) == if key == k {
            Some(w@)
        } else {
            part_lookup(parts, key)
        },
    decreases parts.len(),
{
    if i > 0 {
        assert(parts.update(i, (k, w)).drop_first() =~= parts.drop_first().update(i - 1, (k, w)));
        assert forall|i2: int| 0 <= i2 < i - 1 implies (#[trigger] parts.drop_first()[i2]).0 != k by {
            assert(parts.drop_first()[i2] == parts[i2 + 1]);
        }
        lemma_lookup_update(parts.drop_first(), i - 1, k, w, key);
        assert(parts[0].0 != k);
        assert(parts.update(i, (k, w))[0] == parts[0]);
    } else {
        assert(parts.update(0, (k, w)).drop_first() =~= parts.drop_first());
        assert(parts.update(0, (k, w))[0] == (k, w));
    }
}

/// Whether two keys are equal.
fn same_key(a: &Option<(usize, usize)>, b: &Option<(usize, usize)>) -> (r: bool)
    ensures
        r == (*a == *b),
{
    match (a, b) {
        (None, None) => true,
        (Some(x), Some(y)) => x.0 == y.0 && x.1 == y.1,
        _ => false,
    }
}

/// The first entry with key `key`, and what the lookup of `key` gives.
fn find_entry(parts: &Vec<(Option<(usize, usize)>, Partition)>, key: &Option<(usize, usize)>) -> (r: Option<usize>)
    ensures
        r is None ==> part_lookup(parts@, *key) is None,
        r matches Some(i) ==> i < parts@.len() && parts@[i as int].0 == *key && (forall|i2: int|
            0 <= i2 < i ==> (#[trigger] parts@[i2]).0 != *key) && part_lookup(parts@, *key) == Some(
            parts@[i as int].1@,
        ),
{
    let mut p: usize = 0;
    proof {
        assert(parts@.skip(0) =~= parts@);
    }
    while p < parts.len()
        invariant
            p <= parts.len(),
            part_lookup(parts@, *key) == part_lookup(parts@.skip(p as int), *key),
            forall|i2: int| 0 <= i2 < p ==> (#[trigger] parts@[i2]).0 != *key,
        decreases parts.len() - p,
    {
        proof {
            assert(parts@.skip(p as int).drop_first() =~= parts@.skip(p + 1));
            assert(parts@.skip(p as int)[0] == parts@[p as int]);
        }
        if same_key(&parts[p].0, key) {
            return Some(p);
        }
        p = p + 1;
    }
    proof {
        assert(parts@.skip(p as int) =~= Seq::<(Option<(usize, usize)>, Partition)>::empty());
    }
    None
}

/// The domain a copy constraint's polynomials are evaluated over: the larger
/// of the last dimensions of its input and output.
pub open spec fn copy_domain(perm: Tensor<Option<Vec<usize>>>, input_dim: Seq<usize>) -> nat {
    let a = input_dim[input_dim.len() - 1] as nat;
    let b = perm.shape@[perm.shape@.len() - 1] as nat;
    if a >= b {
        a
    } else {
        b
    }
}

/// The position of input element `k`.
fn input_position(input_dim: &Vec<usize>, k: usize, n: usize) -> (r: (usize, usize))
    requires
        input_dim@.len() >= 1,
        input_dim@[input_dim@.len() - 1] > 0,
        input_dim@[input_dim@.len() - 1] <= n,
        suffix_sizes_fit(input_dim@),
        forall|j: nat| j <= input_dim@.len() ==> #[trigger] shape_size(input_dim@.take(j as int)) <= usize::MAX,
        k < shape_size(input_dim@),
    ensures
        r == in_pos(input_dim@, n as nat, k as nat),
        (r.0 as nat) < out_offset(input_dim@),
        (r.1 as nat) < n,
{
    let idx = index_at(input_dim, k);
    proof {
        lemma_index_of(input_dim@, k as nat);
        lemma_flat_fits(input_dim@, idx@, n as nat);
    }
    flat_index(input_dim, &Some(idx), n).unwrap()
}

/// The position of the output element at index `idx`.
fn listed_position(out_dim: &Vec<usize>, input_dim: &Vec<usize>, off: usize, idx: &Vec<usize>, n: usize) -> (r: (usize, usize))
    requires
        out_dim@.len() >= 1,
        input_dim@.len() >= 1,
        out_dim@[out_dim@.len() - 1] > 0,
        out_dim@[out_dim@.len() - 1] <= n,
        suffix_sizes_fit(out_dim@),
        forall|j2: nat| j2 <= out_dim@.len() ==> #[trigger] shape_size(out_dim@.take(j2 as int)) <= usize::MAX,
        off == out_offset(input_dim@),
        out_offset(input_dim@) + shape_size(out_dim@.take(out_dim@.len() - 1)) <= usize::MAX,
        index_in(out_dim@, idx@),
    ensures
        r == idx_out_pos(out_dim@, input_dim@, n as nat, idx@),
{
    proof {
        lemma_flat_fits(out_dim@, idx@, n as nat);
    }
    let p = flat_index(out_dim, &Some(idx.clone()), n).unwrap();
    (p.0 + off, p.1)
}

/// The position of output element `j`.
fn output_position(out_dim: &Vec<usize>, input_dim: &Vec<usize>, off: usize, j: usize, n: usize) -> (r: (usize, usize))
    requires
        out_dim@.len() >= 1,
        input_dim@.len() >= 1,
        out_dim@[out_dim@.len() - 1] > 0,
        out_dim@[out_dim@.len() - 1] <= n,
        suffix_sizes_fit(out_dim@),
        forall|j2: nat| j2 <= out_dim@.len() ==> #[trigger] shape_size(out_dim@.take(j2 as int)) <= usize::MAX,
        off == out_offset(input_dim@),
        out_offset(input_dim@) + shape_size(out_dim@.take(out_dim@.len() - 1)) <= usize::MAX,
        j < shape_size(out_dim@),
    ensures
        r == out_pos(out_dim@, input_dim@, n as nat, j as nat),
{
    let idx = index_at(out_dim, j);
    proof {
        lemma_index_of(out_dim@, j as nat);
    }
    listed_position(out_dim, input_dim, off, &idx, n)
}

/// One cycle holding one position.
fn single_cycle(p: (usize, usize)) -> (r: Partition)
    ensures
        r@.len() == 1,
        r@[0]@ == seq![p],
{
    let mut c: Vec<(usize, usize)> = Vec::new();
    c.push(p);
    let mut r: Partition = Vec::new();
    r.push(c);
    proof {
        assert(r@[0]@ =~= seq![p]);
    }
    r
}

} // verus!

verus! {

/// The copies of a key up to `m + 1` are those up to `m`, and output `m` if
/// it copies the key.
proof fn lemma_copies_step(perm: Tensor<Option<Vec<usize>>>, input_dim: Seq<usize>, n: nat, key: (usize, usize), m: nat)
    ensures
        copies_of(perm, input_dim, n, key, m + 1) == copies_of(perm, input_dim, n, key, m) + if perm_pos(
            input_dim,
            n,
            perm.data@[m as int],
        ) == Some(key) {
            seq![out_pos(perm.shape@, input_dim, n, m)]
        } else {
            Seq::empty()
        },
{
}

/// The partitions of the input positions: each input position's cycle is
/// the position followed, in order, by the positions of the output elements
/// that copy it.
fn input_partitions(perm: &Tensor<Option<Vec<usize>>>, input_dim: &Vec<usize>, n: usize) -> (r: Vec<(Option<(usize, usize)>, Partition)>)
    requires
        partitions_accept(*perm, input_dim@, n as nat),
    ensures
        forall|k: nat| k < shape_size(input_dim@) ==> #[trigger] input_cycle_is(r@, *perm, input_dim@, n as nat, k, perm.data@.len()),
        forall|i: int| 0 <= i < r@.len() ==> is_input_key(input_dim@, n as nat, (#[trigger] r@[i]).0),
        keys_distinct(r@),
{
    let ghost id = input_dim@;
    let ghost nn = n as nat;
    proof {
        assert(input_dim@.skip(0) =~= input_dim@);
    }
    let size_in = num_elements(input_dim);
    let mut parts: Vec<(Option<(usize, usize)>, Partition)> = Vec::new();
    let mut k: usize = 0;
    while k < size_in
        invariant
            partitions_accept(*perm, id, nn),
            id == input_dim@,
            nn == n,
            size_in == shape_size(id),
            k <= size_in,
            forall|k2: nat| k2 < k ==> #[trigger] input_cycle_is(parts@, *perm, id, nn, k2, 0),
            forall|i: int|
                0 <= i < parts@.len() ==> (#[trigger] parts@[i]).0 is Some && parts@[i].1@.len() == 1 && parts@[i].1@[0]@
                    == seq![parts@[i].0->0],
            forall|i: int| 0 <= i < parts@.len() ==> is_input_key(id, nn, (#[trigger] parts@[i]).0),
            keys_distinct(parts@),
        decreases size_in - k,
    {
        let p = input_position(input_dim, k, n);
        let key = Some(p);
        let ghost before = parts@;
        match find_entry(&parts, &key) {
            Some(i) => {
                proof {
                    assert(parts@[i as int].0 == key);
                }
            },
            None => {
                let e = (key, single_cycle(p));
                parts.push(e);
                proof {
                    lemma_lookup_none(before, key);
                    assert forall|i: int, j: int| 0 <= i < j < parts@.len() implies (#[trigger] parts@[i]).0 != (#[trigger] parts@[j]).0 by {
                        assert(parts@[i] == before[i]);
                        if j < before.len() {
                            assert(parts@[j] == before[j]);
                        }
                    }
                    assert forall|k2: nat| k2 < k implies #[trigger] input_cycle_is(parts@, *perm, id, nn, k2, 0) by {
                        assert(input_cycle_is(before, *perm, id, nn, k2, 0));
                        lemma_lookup_push(before, e, Some(in_pos(id, nn, k2)));
                    }
                    lemma_lookup_push(before, e, key);
                    assert forall|i: int| 0 <= i < parts@.len() implies (#[trigger] parts@[i]).0 is Some && parts@[i].1@.len()
                        == 1 && parts@[i].1@[0]@ == seq![parts@[i].0->0] by {
                        if i < before.len() {
                            assert(parts@[i] == before[i]);
                        }
                    }
                    assert forall|i: int| 0 <= i < parts@.len() implies is_input_key(id, nn, (#[trigger] parts@[i]).0) by {
                        if i < before.len() {
                            assert(parts@[i] == before[i]);
                        } else {
                            assert(parts@[i].0 == Some(in_pos(id, nn, k as nat)));
                        }
                    }
                }
            },
        }
        proof {
            assert(copies_of(*perm, id, nn, p, 0) =~= Seq::<(usize, usize)>::empty());
            assert(seq![p] + Seq::<(usize, usize)>::empty() =~= seq![p]);
            assert(input_cycle_is(parts@, *perm, id, nn, k as nat, 0));
        }
        k = k + 1;
    }
    let off = prefix_size(input_dim, input_dim.len() - 1);
    let out_dim = &perm.shape;
    let size_out = perm.data.len();
    let mut j: usize = 0;
    while j < size_out
        invariant
            partitions_accept(*perm, id, nn),
            id == input_dim@,
            nn == n,
            size_in == shape_size(id),
            out_dim == perm.shape,
            size_out == perm.data@.len(),
            off == out_offset(id),
            j <= size_out,
            forall|k2: nat| k2 < size_in ==> #[trigger] input_cycle_is(parts@, *perm, id, nn, k2, j as nat),
            forall|i: int| 0 <= i < parts@.len() ==> is_input_key(id, nn, (#[trigger] parts@[i]).0),
            keys_distinct(parts@),
        decreases size_out - j,
    {
        let ghost before = parts@;
        match &perm.data[j] {
            None => {
                proof {
                    assert forall|k2: nat| k2 < size_in implies #[trigger] input_cycle_is(parts@, *perm, id, nn, k2, (j + 1) as nat) by {
                        assert(input_cycle_is(parts@, *perm, id, nn, k2, j as nat));
                        lemma_copies_step(*perm, id, nn, in_pos(id, nn, k2), j as nat);
                        assert(copies_of(*perm, id, nn, in_pos(id, nn, k2), (j + 1) as nat) =~= copies_of(*perm, id, nn, in_pos(id, nn, k2), j as nat));
                    }
                }
            },
            Some(idx) => {
                proof {
                    lemma_flat_fits(id, idx@, nn);
                }
                let p = flat_index(input_dim, &Some(idx.clone()), n).unwrap();
                let q = output_position(out_dim, input_dim, off, j, n);
                let key = Some(p);
                // The input element named here has a cycle under its position.
                let ghost k0 = offset_of(id, idx@);
                proof {
                    lemma_offset_bound(id, idx@);
                    index_of_offset(id, idx@);
                    assert(in_pos(id, nn, k0) == p);
                    assert(input_cycle_is(parts@, *perm, id, nn, k0, j as nat));
                }
                match find_entry(&parts, &key) {
                    Some(i) => {
                        let (kk, mut cycles) = parts.remove(i);
                        let mut c0 = cycles.remove(0);
                        let ghost c0_old = c0@;
                        c0.push(q);
                        cycles.insert(0, c0);
                        parts.insert(i, (kk, cycles));
                        proof {
                            assert(parts@ =~= before.update(i as int, (key, cycles)));
                            assert forall|k2: nat| k2 < size_in implies #[trigger] input_cycle_is(parts@, *perm, id, nn, k2, (j + 1) as nat) by {
                                let key2 = in_pos(id, nn, k2);
                                assert(input_cycle_is(before, *perm, id, nn, k2, j as nat));
                                lemma_lookup_update(before, i as int, key, cycles, Some(key2));
                                lemma_copies_step(*perm, id, nn, key2, j as nat);
                                if key2 == p {
                                    assert(cycles@.len() == 1);
                                    assert(cycles@[0]@ =~= c0_old.push(q));
                                    assert(cycles@[0]@ =~= seq![key2] + copies_of(*perm, id, nn, key2, (j + 1) as nat));
                                } else {
                                    assert(copies_of(*perm, id, nn, key2, (j + 1) as nat) =~= copies_of(*perm, id, nn, key2, j as nat));
                                }
                            }
                            assert forall|i2: int| 0 <= i2 < parts@.len() implies is_input_key(id, nn, (#[trigger] parts@[i2]).0) by {
                                assert(is_input_key(id, nn, before[i2].0));
                            }
                            assert forall|i2: int, j2: int| 0 <= i2 < j2 < parts@.len() implies (#[trigger] parts@[i2]).0 != (#[trigger] parts@[j2]).0 by {
                                assert(before[i2].0 != before[j2].0);
                            }
                        }
                    },
                    None => {
                        // Every named input element has an entry already, so
                        // this never happens; a new entry would hold both.
                        proof {
                            assert(false);
                        }
                        let mut cycles = single_cycle(p);
                        let mut c0 = cycles.remove(0);
                        c0.push(q);
                        cycles.insert(0, c0);
                        parts.push((key, cycles));
                    },
                }
            },
        }
        let ghost next: nat = (j + 1) as nat;
        assert(forall|k2: nat| k2 < size_in ==> #[trigger] input_cycle_is(parts@, *perm, id, nn, k2, next));
        j = j + 1;
        assert(next == j as nat);
    }
    parts
}

} // verus!

verus! {

/// Entry `a` of the padding partitions comes before entry `b`: by padding
/// value, and by place among equal values.
pub open spec fn pad_before(pads: Seq<(Fe, Vec<Vec<usize>>)>, a: int, b: int) -> bool {
    pads[a].0@ < pads[b].0@ || (pads[a].0@ == pads[b].0@ && a < b)
}

/// `order` lists every entry of the padding partitions once, by padding value.
pub open spec fn sorted_order(pads: Seq<(Fe, Vec<Vec<usize>>)>, order: Seq<usize>) -> bool {
    &&& order.len() == pads.len()
    &&& forall|x: int| 0 <= x < order.len() ==> #[trigger] order[x] < pads.len()
    &&& forall|x: int, y: int| 0 <= x < y < order.len() ==> pad_before(pads, #[trigger] order[x] as int, #[trigger] order[y] as int)
    &&& forall|e: int| 0 <= e < pads.len() ==> #[trigger] in_order(order, e)
}

/// Entry `e` is named by `order`.
pub open spec fn in_order(order: Seq<usize>, e: int) -> bool {
    exists|x: int| 0 <= x < order.len() && #[trigger] order[x] == e
}

/// The entries of the padding partitions in order of their values.
fn pad_order(pads: &Vec<(Fe, Vec<Vec<usize>>)>) -> (r: Vec<usize>)
    ensures
        sorted_order(pads@, r@),
{
    let n = pads.len();
    let mut order: Vec<usize> = Vec::new();
    let mut i: usize = 0;
    while i < n
        invariant
            n == pads@.len(),
            i <= n,
            order@.len() == i,
            forall|x: int| 0 <= x < order@.len() ==> #[trigger] order@[x] < i,
            forall|x: int, y: int| 0 <= x < y < order@.len() ==> pad_before(pads@, #[trigger] order@[x] as int, #[trigger] order@[y] as int),
            forall|e: int| 0 <= e < i ==> #[trigger] in_order(order@, e),
        decreases n - i,
    {
        // Entry `i` goes after every entry of no greater value.
        let mut p: usize = 0;
        while p < order.len() && !pads[i].0.lt(&pads[order[p]].0)
            invariant
                n == pads@.len(),
                i < n,
                p <= order@.len(),
                forall|x: int| 0 <= x < order@.len() ==> #[trigger] order@[x] < i,
                forall|x: int| 0 <= x < p ==> !(pads@[i as int].0@ < pads@[#[trigger] order@[x] as int].0@),
            decreases order@.len() - p,
        {
            p = p + 1;
        }
        let ghost old_order = order@;
        order.insert(p, i);
        proof {
            assert forall|x: int, y: int| 0 <= x < y < order@.len() implies pad_before(pads@, #[trigger] order@[x] as int, #[trigger] order@[y] as int) by {
                if y < p {
                    assert(order@[x] == old_order[x] && order@[y] == old_order[y]);
                } else if y == p {
                    assert(order@[x] == old_order[x]);
                } else if x > p {
                    assert(order@[x] == old_order[x - 1] && order@[y] == old_order[y - 1]);
                } else if x == p {
                    assert(order@[y] == old_order[y - 1]);
                    if p < y - 1 {
                        assert(pad_before(pads@, old_order[p as int] as int, old_order[y - 1] as int));
                    }
                } else {
                    assert(order@[x] == old_order[x] && order@[y] == old_order[y - 1]);
                }
            }
            assert forall|e: int| 0 <= e < i + 1 implies #[trigger] in_order(order@, e) by {
                if e == i {
                    assert(order@[p as int] == e);
                } else {
                    assert(in_order(old_order, e));
                    let x = choose|x: int| 0 <= x < old_order.len() && #[trigger] old_order[x] == e;
                    if x < p {
                        assert(order@[x] == e);
                    } else {
                        assert(order@[x + 1] == e);
                    }
                }
            }
            assert forall|x: int| 0 <= x < order@.len() implies #[trigger] order@[x] < i + 1 by {
                if x < p {
                    assert(order@[x] == old_order[x]);
                } else if x > p {
                    assert(order@[x] == old_order[x - 1]);
                }
            }
        }
        i = i + 1;
    }
    order
}

/// The cycle of padding entry `e`: the positions of the output indices it
/// lists, in order.
pub open spec fn pad_cycle(pads: Seq<(Fe, Vec<Vec<usize>>)>, out_dim: Seq<usize>, input_dim: Seq<usize>, n: nat, e: int) -> Seq<
    (usize, usize),
> {
    Seq::new(pads[e].1@.len(), |k: int| idx_out_pos(out_dim, input_dim, n, pads[e].1@[k]@))
}

/// The cycles of the first `m` padding entries named by `order` that list at
/// least one index, in that order.
pub open spec fn pad_cycles(
    pads: Seq<(Fe, Vec<Vec<usize>>)>,
    order: Seq<usize>,
    out_dim: Seq<usize>,
    input_dim: Seq<usize>,
    n: nat,
    m: nat,
) -> Seq<Seq<(usize, usize)>>
    decreases m,
{
    if m == 0 {
        Seq::empty()
    } else {
        let e = order[m - 1] as int;
        pad_cycles(pads, order, out_dim, input_dim, n, (m - 1) as nat) + if pads[e].1@.len() > 0 {
            seq![pad_cycle(pads, out_dim, input_dim, n, e)]
        } else {
            Seq::empty()
        }
    }
}

/// Cycles given as vectors hold the given sequences.
pub open spec fn cycles_are(cs: Seq<Vec<(usize, usize)>>, want: Seq<Seq<(usize, usize)>>) -> bool {
    cs.len() == want.len() && forall|i: int| 0 <= i < cs.len() ==> #[trigger] cs[i]@ == want[i]
}

/// The padding cycles, one per padding entry that lists an index, taken in
/// the order `order` gives.
fn padding_cycles(
    pads: &Vec<(Fe, Vec<Vec<usize>>)>,
    order: &Vec<usize>,
    perm: &Tensor<Option<Vec<usize>>>,
    input_dim: &Vec<usize>,
    n: usize,
) -> (r: Partition)
    requires
        partitions_accept(*perm, input_dim@, n as nat),
        partitions_in(perm.shape@, pads@),
        forall|x: int| 0 <= x < order@.len() ==> #[trigger] order@[x] < pads@.len(),
    ensures
        cycles_are(r@, pad_cycles(pads@, order@, perm.shape@, input_dim@, n as nat, order@.len())),
{
    let ghost od = perm.shape@;
    let ghost id = input_dim@;
    let ghost nn = n as nat;
    let off = prefix_size(input_dim, input_dim.len() - 1);
    let mut r: Partition = Vec::new();
    let mut x: usize = 0;
    while x < order.len()
        invariant
            partitions_accept(*perm, id, nn),
            partitions_in(od, pads@),
            od == perm.shape@,
            id == input_dim@,
            nn == n,
            off == out_offset(id),
            forall|x2: int| 0 <= x2 < order@.len() ==> #[trigger] order@[x2] < pads@.len(),
            x <= order@.len(),
            cycles_are(r@, pad_cycles(pads@, order@, od, id, nn, x as nat)),
        decreases order@.len() - x,
    {
        let e = order[x];
        let list = &pads[e].1;
        let mut c: Vec<(usize, usize)> = Vec::new();
        let mut k: usize = 0;
        while k < list.len()
            invariant
                partitions_accept(*perm, id, nn),
                partitions_in(od, pads@),
                od == perm.shape@,
                id == input_dim@,
                nn == n,
                off == out_offset(id),
                e < pads@.len(),
                list == pads@[e as int].1,
                k <= list@.len(),
                c@ == Seq::new(k as nat, |k2: int| idx_out_pos(od, id, nn, list@[k2]@)),
            decreases list@.len() - k,
        {
            assert(index_in(od, pads@[e as int].1@[k as int]@));
            let q = listed_position(&perm.shape, input_dim, off, &list[k], n);
            c.push(q);
            k = k + 1;
            proof {
                assert(c@ =~= Seq::new(k as nat, |k2: int| idx_out_pos(od, id, nn, list@[k2]@)));
            }
        }
        let ghost before = r@;
        let ghost want = pad_cycles(pads@, order@, od, id, nn, x as nat);
        if c.len() > 0 {
            r.push(c);
        }
        proof {
            assert(c@ =~= pad_cycle(pads@, od, id, nn, e as int));
            assert(pad_cycles(pads@, order@, od, id, nn, (x + 1) as nat) == want + if pads@[e as int].1@.len() > 0 {
                seq![pad_cycle(pads@, od, id, nn, e as int)]
            } else {
                Seq::empty()
            });
            assert forall|i: int| 0 <= i < r@.len() implies #[trigger] r@[i]@ == pad_cycles(pads@, order@, od, id, nn, (x + 1) as nat)[i] by {
                if i < before.len() {
                    assert(r@[i] == before[i]);
                }
            }
        }
        x = x + 1;
    }
    r
}

/// A key that no entry holds has no cycles.
proof fn lemma_lookup_absent(parts: Seq<(Option<(usize, usize)>, Partition)>, key: Option<(usize, usize)>)
    requires
        forall|i: int| 0 <= i < parts.len() ==> (#[trigger] parts[i]).0 != key,
    ensures
        part_lookup(parts, key) is None,
    decreases parts.len(),
{
    if parts.len() > 0 {
        assert(parts[0].0 != key);
        assert forall|i: int| 0 <= i < parts.drop_first().len() implies (#[trigger] parts.drop_first()[i]).0 != key by {
            assert(parts.drop_first()[i] == parts[i + 1]);
        }
        lemma_lookup_absent(parts.drop_first(), key);
    }
}

/// A position found in a cycle has a first place there.
proof fn lemma_first_pos_some(c: Seq<(usize, usize)>, x: (usize, usize), q: int)
    requires
        0 <= q < c.len(),
        c[q] == x,
    ensures
        first_pos(c, x) is Some,
    decreases c.len(),
{
    if q < c.len() - 1 {
        lemma_first_pos_some(c.drop_last(), x, q);
    }
}

/// A position held by one of the cycles has a successor.
proof fn lemma_cycle_next_some(cycles: Seq<Vec<(usize, usize)>>, x: (usize, usize), i: int, q: int)
    requires
        0 <= i < cycles.len(),
        0 <= q < cycles[i]@.len(),
        cycles[i]@[q] == x,
    ensures
        cycle_next(cycles, x) is Some,
    decreases cycles.len(),
{
    if i == 0 {
        lemma_first_pos_some(cycles[0]@, x, q);
    } else if first_pos(cycles[0]@, x) is None {
        assert(cycles.drop_first()[i - 1] == cycles[i]);
        lemma_cycle_next_some(cycles.drop_first(), x, i - 1, q);
    }
}

/// The successor found for a position is one of the positions of the cycles.
proof fn lemma_cycle_next_in(cycles: Seq<Vec<(usize, usize)>>, x: (usize, usize))
    ensures
        cycle_next(cycles, x) matches Some(y) ==> exists|i: int, q: int|
            0 <= i < cycles.len() && 0 <= q < cycles[i]@.len() && #[trigger] cycles[i]@[q] == y,
    decreases cycles.len(),
{
    if cycles.len() > 0 {
        lemma_first_pos_bound(cycles[0]@, x);
        match first_pos(cycles[0]@, x) {
            Some(p) => {
                let len = cycles[0]@.len() as int;
                let q = (p + 1) % len;
                vstd::arithmetic::div_mod::lemma_mod_pos_bound(p + 1, len);
                assert(cycles[0]@[q] == cycle_next(cycles, x)->0);
            },
            None => {
                lemma_cycle_next_in(cycles.drop_first(), x);
                if cycle_next(cycles, x) is Some {
                    let y = cycle_next(cycles, x)->0;
                    let (i, q) = choose|i: int, q: int|
                        0 <= i < cycles.drop_first().len() && 0 <= q < cycles.drop_first()[i]@.len()
                            && #[trigger] cycles.drop_first()[i]@[q] == y;
                    assert(cycles[i + 1]@[q] == y);
                }
            },
        }
    }
}

/// An output element that copies `key` is among its copies.
proof fn lemma_copies_contain(perm: Tensor<Option<Vec<usize>>>, input_dim: Seq<usize>, n: nat, key: (usize, usize), m: nat, j: nat)
    requires
        j < m,
        perm_pos(input_dim, n, perm.data@[j as int]) == Some(key),
    ensures
        exists|q: int|
            0 <= q < copies_of(perm, input_dim, n, key, m).len() && #[trigger] copies_of(perm, input_dim, n, key, m)[q]
                == out_pos(perm.shape@, input_dim, n, j),
    decreases m,
{
    let prev = copies_of(perm, input_dim, n, key, (m - 1) as nat);
    lemma_copies_step(perm, input_dim, n, key, (m - 1) as nat);
    if j == m - 1 {
        assert(copies_of(perm, input_dim, n, key, m)[prev.len() as int] == out_pos(perm.shape@, input_dim, n, j));
    } else {
        lemma_copies_contain(perm, input_dim, n, key, (m - 1) as nat, j);
        let q = choose|q: int| 0 <= q < prev.len() && #[trigger] prev[q] == out_pos(perm.shape@, input_dim, n, j);
        assert(copies_of(perm, input_dim, n, key, m)[q] == prev[q]);
    }
}

/// `p` is the position of one of the first `m` output elements.
pub open spec fn copy_from(perm: Tensor<Option<Vec<usize>>>, input_dim: Seq<usize>, n: nat, m: nat, p: (usize, usize)) -> bool {
    exists|j: nat| j < m && p == #[trigger] out_pos(perm.shape@, input_dim, n, j)
}

/// The copy at place `q` is the position of an output element that copies
/// the key.
proof fn lemma_copies_elems_from(perm: Tensor<Option<Vec<usize>>>, input_dim: Seq<usize>, n: nat, key: (usize, usize), m: nat, q: int)
    requires
        0 <= q < copies_of(perm, input_dim, n, key, m).len(),
    ensures
        exists|j: nat|
            j < m && copies_of(perm, input_dim, n, key, m)[q] == #[trigger] out_pos(perm.shape@, input_dim, n, j) && perm_pos(
                input_dim,
                n,
                perm.data@[j as int],
            ) == Some(key),
    decreases m,
{
    let prev = copies_of(perm, input_dim, n, key, (m - 1) as nat);
    lemma_copies_step(perm, input_dim, n, key, (m - 1) as nat);
    if q < prev.len() {
        lemma_copies_elems_from(perm, input_dim, n, key, (m - 1) as nat, q);
        assert(copies_of(perm, input_dim, n, key, m)[q] == prev[q]);
    } else {
        let j = (m - 1) as nat;
        assert(copies_of(perm, input_dim, n, key, m)[q] == out_pos(perm.shape@, input_dim, n, j));
    }
}

/// The copies of a key are positions of output elements.
proof fn lemma_copies_elems(perm: Tensor<Option<Vec<usize>>>, input_dim: Seq<usize>, n: nat, key: (usize, usize), m: nat)
    ensures
        forall|q: int|
            0 <= q < copies_of(perm, input_dim, n, key, m).len() ==> #[trigger] copy_from(perm, input_dim, n, m, copies_of(perm, input_dim, n, key, m)[q]),
    decreases m,
{
    if m == 0 {
        assert(copies_of(perm, input_dim, n, key, m).len() == 0);
    } else {
        let prev = copies_of(perm, input_dim, n, key, (m - 1) as nat);
        lemma_copies_step(perm, input_dim, n, key, (m - 1) as nat);
        lemma_copies_elems(perm, input_dim, n, key, (m - 1) as nat);
        assert forall|q: int| 0 <= q < copies_of(perm, input_dim, n, key, m).len() implies #[trigger] copy_from(
            perm,
            input_dim,
            n,
            m,
            copies_of(perm, input_dim, n, key, m)[q],
        ) by {
            if q < prev.len() {
                assert(copies_of(perm, input_dim, n, key, m)[q] == prev[q]);
                assert(copy_from(perm, input_dim, n, (m - 1) as nat, prev[q]));
                let j = choose|j: nat| j < m - 1 && prev[q] == #[trigger] out_pos(perm.shape@, input_dim, n, j);
                assert(j < m && prev[q] == out_pos(perm.shape@, input_dim, n, j));
            } else {
                let y = out_pos(perm.shape@, input_dim, n, (m - 1) as nat);
                assert(copies_of(perm, input_dim, n, key, m)[q] == y);
                assert(m - 1 < m && y == out_pos(perm.shape@, input_dim, n, (m - 1) as nat));
            }
        }
    }
}

/// The cycle of a padding entry that lists an index is among the padding
/// cycles once the entry is taken.
proof fn lemma_pad_cycles_contain(
    pads: Seq<(Fe, Vec<Vec<usize>>)>,
    order: Seq<usize>,
    od: Seq<usize>,
    id: Seq<usize>,
    n: nat,
    m: nat,
    x: int,
)
    requires
        0 <= x < m,
        pads[order[x] as int].1@.len() > 0,
    ensures
        exists|i: int|
            0 <= i < pad_cycles(pads, order, od, id, n, m).len() && #[trigger] pad_cycles(pads, order, od, id, n, m)[i]
                == pad_cycle(pads, od, id, n, order[x] as int),
    decreases m,
{
    let prev = pad_cycles(pads, order, od, id, n, (m - 1) as nat);
    if x == m - 1 {
        assert(pad_cycles(pads, order, od, id, n, m)[prev.len() as int] == pad_cycle(pads, od, id, n, order[x] as int));
    } else {
        lemma_pad_cycles_contain(pads, order, od, id, n, (m - 1) as nat, x);
        let i = choose|i: int| 0 <= i < prev.len() && #[trigger] prev[i] == pad_cycle(pads, od, id, n, order[x] as int);
        assert(pad_cycles(pads, order, od, id, n, m)[i] == prev[i]);
    }
}

/// The padding cycles are cycles of padding entries.
proof fn lemma_pad_cycles_elems(pads: Seq<(Fe, Vec<Vec<usize>>)>, order: Seq<usize>, od: Seq<usize>, id: Seq<usize>, n: nat, m: nat)
    ensures
        forall|i: int|
            0 <= i < pad_cycles(pads, order, od, id, n, m).len() ==> exists|x: int|
                0 <= x < m && #[trigger] pad_cycles(pads, order, od, id, n, m)[i] == pad_cycle(pads, od, id, n, order[x] as int),
    decreases m,
{
    if m > 0 {
        let prev = pad_cycles(pads, order, od, id, n, (m - 1) as nat);
        lemma_pad_cycles_elems(pads, order, od, id, n, (m - 1) as nat);
        assert forall|i: int| 0 <= i < pad_cycles(pads, order, od, id, n, m).len() implies exists|x: int|
            0 <= x < m && #[trigger] pad_cycles(pads, order, od, id, n, m)[i] == pad_cycle(pads, od, id, n, order[x] as int) by {
            if i < prev.len() {
                assert(pad_cycles(pads, order, od, id, n, m)[i] == prev[i]);
                let x = choose|x: int| 0 <= x < m - 1 && #[trigger] prev[i] == pad_cycle(pads, od, id, n, order[x] as int);
                assert(0 <= x < m);
            } else {
                assert(pad_cycles(pads, order, od, id, n, m)[i] == pad_cycle(pads, od, id, n, order[m - 1] as int));
            }
        }
    }
}

/// An index with a padding value is listed by some padding entry.
proof fn lemma_pad_listed(pads: Seq<(Fe, Vec<Vec<usize>>)>, idx: Seq<usize>)
    requires
        pad_value(pads, idx) is Some,
    ensures
        exists|e: int, k: int| 0 <= e < pads.len() && 0 <= k < pads[e].1@.len() && #[trigger] pads[e].1@[k]@ == idx,
    decreases pads.len(),
{
    if holds_index(pads.last().1@, idx) {
        let k = choose|k: int| 0 <= k < pads.last().1@.len() && #[trigger] pads.last().1@[k]@ == idx;
        assert(pads[pads.len() - 1].1@[k]@ == idx);
    } else {
        lemma_pad_listed(pads.drop_last(), idx);
        let (e, k) = choose|e: int, k: int|
            0 <= e < pads.drop_last().len() && 0 <= k < pads.drop_last()[e].1@.len() && #[trigger] pads.drop_last()[e].1@[k]@ == idx;
        assert(pads[e] == pads.drop_last()[e]);
    }
}

/// The number of polynomials of input and output together.
pub open spec fn position_count(out_dim: Seq<usize>, input_dim: Seq<usize>) -> nat {
    out_offset(input_dim) + shape_size(out_dim.take(out_dim.len() - 1))
}

/// The positions of input elements lie among the input's polynomials.
proof fn lemma_in_pos_bound(perm: Tensor<Option<Vec<usize>>>, id: Seq<usize>, n: nat, k: nat)
    requires
        partitions_accept(perm, id, n),
        k < shape_size(id),
    ensures
        (in_pos(id, n, k).0 as nat) < out_offset(id),
        (in_pos(id, n, k).1 as nat) < n,
{
    lemma_index_of(id, k);
    lemma_flat_fits(id, index_of(id, k), n);
    assert(out_offset(id) <= usize::MAX) by {
        assert(shape_size(id.take((id.len() - 1) as nat as int)) <= usize::MAX);
    }
}

/// The positions of output indices lie among the output's polynomials.
proof fn lemma_idx_out_bound(perm: Tensor<Option<Vec<usize>>>, id: Seq<usize>, n: nat, idx: Seq<usize>)
    requires
        partitions_accept(perm, id, n),
        index_in(perm.shape@, idx),
    ensures
        (idx_out_pos(perm.shape@, id, n, idx).0 as nat) < position_count(perm.shape@, id),
        (idx_out_pos(perm.shape@, id, n, idx).1 as nat) < n,
{
    lemma_flat_fits(perm.shape@, idx, n);
}

/// The positions of output elements lie among the output's polynomials.
proof fn lemma_out_pos_bound(perm: Tensor<Option<Vec<usize>>>, id: Seq<usize>, n: nat, j: nat)
    requires
        partitions_accept(perm, id, n),
        j < shape_size(perm.shape@),
    ensures
        (out_pos(perm.shape@, id, n, j).0 as nat) < position_count(perm.shape@, id),
        (out_pos(perm.shape@, id, n, j).1 as nat) < n,
{
    lemma_index_of(perm.shape@, j);
    lemma_idx_out_bound(perm, id, n, index_of(perm.shape@, j));
}

/// A tensor has as many elements as rows times the length of its last
/// dimension.
proof fn lemma_rows(s: Seq<usize>)
    requires
        s.len() >= 1,
    ensures
        shape_size(s) == shape_size(s.take(s.len() - 1)) * (s[s.len() - 1] as nat),
{
    lemma_size_split(s, s.len() - 1);
    assert(s.skip(s.len() - 1) =~= seq![s[s.len() - 1]]);
    lemma_single_size(s[s.len() - 1]);
}

/// `j` is the position of the first padding element.
pub open spec fn is_first_none(data: Seq<Option<Vec<usize>>>, j: int) -> bool {
    0 <= j < data.len() && data[j] is None && forall|j2: int| 0 <= j2 < j ==> (#[trigger] data[j2]) is Some
}

/// The entries of row `row` of the input: the position of each of its
/// elements, under no key.
pub open spec fn input_row(input_dim: Seq<usize>, n: nat, row: nat) -> Seq<((usize, usize), Option<(usize, usize)>)> {
    let last = input_dim[input_dim.len() - 1] as nat;
    Seq::new(last, |t: int| (in_pos(input_dim, n, (row * last + t) as nat), None))
}

/// The entries of row `row` of the output: the position of each of its
/// elements, with the position of the input element it copies, if any.
pub open spec fn output_row(perm: Tensor<Option<Vec<usize>>>, input_dim: Seq<usize>, n: nat, row: nat) -> Seq<
    ((usize, usize), Option<(usize, usize)>),
> {
    let od = perm.shape@;
    let last = od[od.len() - 1] as nat;
    Seq::new(
        last,
        |t: int| (out_pos(od, input_dim, n, (row * last + t) as nat), perm_pos(input_dim, n, perm.data@[row * last + t])),
    )
}

/// The positions in the cycles of an input element's key lie among the
/// polynomials.
proof fn lemma_input_cycle_elems(
    blk: CopyConstraintBasicBlock,
    n: nat,
    parts: Seq<(Option<(usize, usize)>, Partition)>,
    k: nat,
    i: int,
    q: int,
)
    requires
        blk.partitions_ok(),
        n == copy_domain(blk.permutation, blk.input_dim@),
        blk.partitions_are(n, parts),
        k < shape_size(blk.input_dim@),
        part_lookup(parts, Some(in_pos(blk.input_dim@, n, k))) matches Some(cs) && 0 <= i < cs.len() && 0 <= q < cs[i]@.len(),
    ensures
        ({
            let y = part_lookup(parts, Some(in_pos(blk.input_dim@, n, k)))->0[i]@[q];
            (y.0 as nat) < position_count(blk.permutation.shape@, blk.input_dim@) && (y.1 as nat) < n
        }),
{
    let perm = blk.permutation;
    let id = blk.input_dim@;
    let key = in_pos(id, n, k);
    let cs = part_lookup(parts, Some(key))->0;
    assert(input_cycle_is(parts, perm, id, n, k, perm.data@.len()));
    let copies = copies_of(perm, id, n, key, perm.data@.len());
    let y = cs[i]@[q];
    assert(i == 0);
    lemma_in_pos_bound(perm, id, n, k);
    if q > 0 {
        assert(y == copies[q - 1]);
        lemma_copies_elems(perm, id, n, key, perm.data@.len());
        assert(copy_from(perm, id, n, perm.data@.len(), copies[q - 1]));
        let j = choose|j: nat| j < perm.data@.len() && copies[q - 1] == #[trigger] out_pos(perm.shape@, id, n, j);
        lemma_out_pos_bound(perm, id, n, j);
    }
}

/// A spacing is no larger than the domain it divides.
proof fn lemma_spacing(n: nat, last: nat)
    requires
        last >= 1,
    ensures
        n / last <= n,
{
    vstd::arithmetic::div_mod::lemma_div_is_ordered_by_denominator(n as int, 1, last as int);
}

/// `construct_ssig` accepts the entry of input element `k`.
proof fn lemma_input_entry(blk: CopyConstraintBasicBlock, n: nat, parts: Seq<(Option<(usize, usize)>, Partition)>, k: nat)
    requires
        blk.evaluations_ok(),
        n == copy_domain(blk.permutation, blk.input_dim@),
        blk.partitions_are(n, parts),
        k < shape_size(blk.input_dim@),
    ensures
        ssig_entry_ok(
            (in_pos(blk.input_dim@, n, k), None),
            n,
            blk.input_dim@[blk.input_dim@.len() - 1] as nat,
            parts,
            true,
        ),
{
    let perm = blk.permutation;
    let id = blk.input_dim@;
    let key = in_pos(id, n, k);
    assert(input_cycle_is(parts, perm, id, n, k, perm.data@.len()));
    let cs = part_lookup(parts, Some(key))->0;
    assert(cs[0]@[0] == key);
    lemma_cycle_next_some(cs, key, 0, 0);
    lemma_cycle_next_in(cs, key);
    let y = cycle_next(cs, key)->0;
    let (i, q) = choose|i: int, q: int| 0 <= i < cs.len() && 0 <= q < cs[i]@.len() && #[trigger] cs[i]@[q] == y;
    lemma_input_cycle_elems(blk, n, parts, k, i, q);
    lemma_in_pos_bound(perm, id, n, k);
    lemma_spacing(n, id[id.len() - 1] as nat);
}

/// `construct_ssig` accepts the entry of output element `j`.
proof fn lemma_output_entry(blk: CopyConstraintBasicBlock, n: nat, parts: Seq<(Option<(usize, usize)>, Partition)>, j: nat)
    requires
        blk.evaluations_ok(),
        n == copy_domain(blk.permutation, blk.input_dim@),
        blk.partitions_are(n, parts),
        j < blk.permutation.data@.len(),
    ensures
        ssig_entry_ok(
            (out_pos(blk.permutation.shape@, blk.input_dim@, n, j), perm_pos(blk.input_dim@, n, blk.permutation.data@[j as int])),
            n,
            blk.permutation.shape@[blk.permutation.shape@.len() - 1] as nat,
            parts,
            false,
        ),
{
    let perm = blk.permutation;
    let id = blk.input_dim@;
    let od = perm.shape@;
    let pads = blk.padding_partitions@;
    let x = out_pos(od, id, n, j);
    lemma_out_pos_bound(perm, id, n, j);
    lemma_spacing(n, od[od.len() - 1] as nat);
    match perm.data@[j as int] {
        Some(idx) => {
            assert(index_in(id, idx@));
            let k0 = offset_of(id, idx@);
            lemma_offset_bound(id, idx@);
            index_of_offset(id, idx@);
            lemma_flat_fits(id, idx@, n);
            let key = in_pos(id, n, k0);
            assert(perm_pos(id, n, perm.data@[j as int]) == Some(key));
            assert(input_cycle_is(parts, perm, id, n, k0, perm.data@.len()));
            let cs = part_lookup(parts, Some(key))->0;
            lemma_copies_contain(perm, id, n, key, perm.data@.len(), j);
            let copies = copies_of(perm, id, n, key, perm.data@.len());
            let q = choose|q: int| 0 <= q < copies.len() && #[trigger] copies[q] == x;
            assert(cs[0]@[q + 1] == x);
            lemma_cycle_next_some(cs, x, 0, q + 1);
            lemma_cycle_next_in(cs, x);
            let y = cycle_next(cs, x)->0;
            let (i2, q2) = choose|i2: int, q2: int| 0 <= i2 < cs.len() && 0 <= q2 < cs[i2]@.len() && #[trigger] cs[i2]@[q2] == y;
            lemma_input_cycle_elems(blk, n, parts, k0, i2, q2);
        },
        None => {
            let idx = index_of(od, j);
            lemma_pad_listed(pads, idx);
            let (e, kk) = choose|e: int, kk: int| 0 <= e < pads.len() && 0 <= kk < pads[e].1@.len() && #[trigger] pads[e].1@[kk]@ == idx;
            let order = choose|order: Seq<usize>|
                sorted_order(pads, order) && (part_lookup(parts, None) matches Some(cs) && cycles_are(
                    cs,
                    pad_cycles(pads, order, od, id, n, order.len()),
                ));
            let cs = part_lookup(parts, None)->0;
            let all = pad_cycles(pads, order, od, id, n, order.len());
            assert(in_order(order, e));
            let xo = choose|xo: int| 0 <= xo < order.len() && #[trigger] order[xo] == e;
            lemma_pad_cycles_contain(pads, order, od, id, n, order.len(), xo);
            let i = choose|i: int| 0 <= i < all.len() && #[trigger] all[i] == pad_cycle(pads, od, id, n, e);
            assert(cs[i]@ == all[i]);
            assert(cs[i]@[kk] == x);
            lemma_cycle_next_some(cs, x, i, kk);
            lemma_cycle_next_in(cs, x);
            let y = cycle_next(cs, x)->0;
            let (i2, q2) = choose|i2: int, q2: int| 0 <= i2 < cs.len() && 0 <= q2 < cs[i2]@.len() && #[trigger] cs[i2]@[q2] == y;
            lemma_pad_cycles_elems(pads, order, od, id, n, order.len());
            assert(cs[i2]@ == all[i2]);
            let x2 = choose|x2: int| 0 <= x2 < order.len() && #[trigger] all[i2] == pad_cycle(pads, od, id, n, order[x2] as int);
            let e2 = order[x2] as int;
            assert(y == idx_out_pos(od, id, n, pads[e2].1@[q2]@));
            assert(index_in(od, pads[e2].1@[q2]@));
            lemma_idx_out_bound(perm, id, n, pads[e2].1@[q2]@);
        },
    }
}

impl CopyConstraintBasicBlock {
    /// The copy constraints whose partitions can be built: a permutation
    /// that names input elements only, non-empty last dimensions, positions
    /// that fit in a `usize`, and padding partitions that list output
    /// indices only.
    pub open spec fn partitions_ok(&self) -> bool {
        &&& self.input_dim@.len() >= 1
        &&& self.permutation.shape@.len() >= 1
        &&& partitions_accept(self.permutation, self.input_dim@, copy_domain(self.permutation, self.input_dim@))
        &&& partitions_in(self.permutation.shape@, self.padding_partitions@)
        &&& pad_values_distinct(self.padding_partitions@)
    }

    /// The copy constraints whose permutation evaluations can be computed:
    /// partitions can be built, the domain exists, the polynomial numbers
    /// fit in an `i32`, and every padding position has a padding value.
    pub open spec fn evaluations_ok(&self) -> bool {
        let perm = self.permutation;
        let id = self.input_dim@;
        &&& self.partitions_ok()
        &&& copy_domain(perm, id) <= 268435456
        &&& position_count(perm.shape@, id) < i32::MAX
        &&& forall|j: int|
            0 <= j < perm.data@.len() && #[trigger] perm.data@[j] is None ==> pad_value(
                self.padding_partitions@,
                index_of(perm.shape@, j as nat),
            ) is Some
    }

    /// `parts` are the partitions of the copy constraint's positions over a
    /// domain of size `n`: under the position of each input element, one
    /// cycle of that position followed, in order, by the positions of the
    /// output elements that copy it; under no key, one cycle per padding
    /// entry that lists output indices, by increasing padding value, each of
    /// the positions of those indices in order; and no other key.
    pub open spec fn partitions_are(&self, n: nat, parts: Seq<(Option<(usize, usize)>, Partition)>) -> bool {
        let perm = self.permutation;
        let id = self.input_dim@;
        let pads = self.padding_partitions@;
        &&& forall|k: nat| k < shape_size(id) ==> #[trigger] input_cycle_is(parts, perm, id, n, k, perm.data@.len())
        &&& forall|i: int| 0 <= i < parts.len() ==> (#[trigger] parts[i]).0 is None || is_input_key(id, n, parts[i].0)
        &&& keys_distinct(parts)
        &&& exists|order: Seq<usize>|
            sorted_order(pads, order) && (part_lookup(parts, None) matches Some(cs) && cycles_are(
                cs,
                pad_cycles(pads, order, perm.shape@, id, n, order.len()),
            ))
    }

    /// The partitions of the copy constraint's positions, over the domain
    /// `copy_domain`, returned first.
    pub fn partitions(&self) -> (r: (usize, Vec<(Option<(usize, usize)>, Partition)>))
        requires
            self.partitions_ok(),
        ensures
            r.0 == copy_domain(self.permutation, self.input_dim@),
            self.partitions_are(r.0 as nat, r.1@),
    {
        let perm = &self.permutation;
        let input_dim = &self.input_dim;
        let last_in = input_dim[input_dim.len() - 1];
        let last_out = perm.shape[perm.shape.len() - 1];
        let n = if last_in >= last_out {
            last_in
        } else {
            last_out
        };
        let mut parts = input_partitions(perm, input_dim, n);
        let order = pad_order(&self.padding_partitions);
        let cycles = padding_cycles(&self.padding_partitions, &order, perm, input_dim, n);
        let ghost before = parts@;
        let e = (None, cycles);
        parts.push(e);
        proof {
            assert forall|i: int| 0 <= i < before.len() implies (#[trigger] before[i]).0 != None::<(usize, usize)> by {
                assert(is_input_key(input_dim@, n as nat, before[i].0));
            }
            lemma_lookup_absent(before, None);
            lemma_lookup_push(before, e, None);
            assert forall|i: int, j: int| 0 <= i < j < parts@.len() implies (#[trigger] parts@[i]).0 != (#[trigger] parts@[j]).0 by {
                assert(parts@[i] == before[i]);
                if j < before.len() {
                    assert(parts@[j] == before[j]);
                }
            }
            assert forall|k: nat| k < shape_size(input_dim@) implies #[trigger] input_cycle_is(
                parts@,
                *perm,
                input_dim@,
                n as nat,
                k,
                perm.data@.len(),
            ) by {
                assert(input_cycle_is(before, *perm, input_dim@, n as nat, k, perm.data@.len()));
                lemma_lookup_push(before, e, Some(in_pos(input_dim@, n as nat, k)));
            }
            assert forall|i: int| 0 <= i < parts@.len() implies (#[trigger] parts@[i]).0 is None || is_input_key(
                input_dim@,
                n as nat,
                parts@[i].0,
            ) by {
                if i < before.len() {
                    assert(parts@[i] == before[i]);
                }
            }
            assert(sorted_order(self.padding_partitions@, order@));
        }
        (n, parts)
    }

    /// The evaluations of the permutation polynomials over the domain `n`,
    /// given the partitions: one row per row of the input (its positions,
    /// last dimension spread over the domain), then one per row of the
    /// output, each as `construct_ssig` gives it for the entries of the row.
    pub fn permutation_evaluations(&self, n: usize, parts: &Vec<(Option<(usize, usize)>, Partition)>) -> (r: Vec<Vec<Fe>>)
        requires
            self.evaluations_ok(),
            n == copy_domain(self.permutation, self.input_dim@),
            self.partitions_are(n as nat, parts@),
        ensures
            r@.len() == position_count(self.permutation.shape@, self.input_dim@),
            forall|row: nat|
                row < out_offset(self.input_dim@) ==> ssig_row_is(
                    r@[row as int]@,
                    #[trigger] input_row(self.input_dim@, n as nat, row),
                    n as nat,
                    self.input_dim@[self.input_dim@.len() - 1] as nat,
                    parts@,
                    true,
                ),
            forall|row: nat|
                row < shape_size(self.permutation.shape@.take(self.permutation.shape@.len() - 1)) ==> ssig_row_is(
                    r@[(out_offset(self.input_dim@) + row) as int]@,
                    #[trigger] output_row(self.permutation, self.input_dim@, n as nat, row),
                    n as nat,
                    self.permutation.shape@[self.permutation.shape@.len() - 1] as nat,
                    parts@,
                    false,
                ),
    {
        let ghost id = self.input_dim@;
        let ghost od = self.permutation.shape@;
        let ghost nn = n as nat;
        let perm = &self.permutation;
        let input_dim = &self.input_dim;
        let last_in = input_dim[input_dim.len() - 1];
        let rows_in = prefix_size(input_dim, input_dim.len() - 1);
        let last_out = perm.shape[perm.shape.len() - 1];
        let rows_out = prefix_size(&perm.shape, perm.shape.len() - 1);
        proof {
            lemma_rows(id);
            lemma_rows(od);
            assert(id.skip(0) =~= id);
            assert(od.skip(0) =~= od);
            vstd::arithmetic::div_mod::lemma_fundamental_div_mod(n as int, last_in as int);
            vstd::arithmetic::div_mod::lemma_mod_pos_bound(n as int, last_in as int);
            vstd::arithmetic::div_mod::lemma_fundamental_div_mod(n as int, last_out as int);
            vstd::arithmetic::div_mod::lemma_mod_pos_bound(n as int, last_out as int);
        }
        let mut r: Vec<Vec<Fe>> = Vec::new();
        let mut row: usize = 0;
        while row < rows_in
            invariant
                self.evaluations_ok(),
                n == copy_domain(self.permutation, id),
                self.partitions_are(nn, parts@),
                id == self.input_dim@,
                nn == n,
                input_dim == &self.input_dim,
                last_in == id[id.len() - 1],
                rows_in == out_offset(id),
                shape_size(id) == rows_in * last_in,
                shape_size(id) <= usize::MAX,
                last_in * (n / last_in) <= n,
                row <= rows_in,
                r@.len() == row,
                forall|row2: nat| row2 < row ==> ssig_row_is(r@[row2 as int]@, #[trigger] input_row(id, nn, row2), nn, last_in as nat, parts@, true),
            decreases rows_in - row,
        {
            let mut entries: Vec<((usize, usize), Option<(usize, usize)>)> = Vec::new();
            let mut t: usize = 0;
            while t < last_in
                invariant
                    self.evaluations_ok(),
                    n == copy_domain(self.permutation, id),
                    id == self.input_dim@,
                    nn == n,
                    input_dim == &self.input_dim,
                    last_in == id[id.len() - 1],
                    rows_in == out_offset(id),
                    shape_size(id) == rows_in * last_in,
                    shape_size(id) <= usize::MAX,
                    row < rows_in,
                    t <= last_in,
                    entries@ == input_row(id, nn, row as nat).take(t as int),
                decreases last_in - t,
            {
                assert(row * last_in + t < rows_in * last_in) by (nonlinear_arith)
                    requires
                        row < rows_in,
                        t < last_in,
                ;
                let k = row * last_in + t;
                let pos = input_position(input_dim, k, n);
                entries.push((pos, None));
                t = t + 1;
                proof {
                    assert(entries@ =~= input_row(id, nn, row as nat).take(t as int));
                }
            }
            proof {
                assert(entries@ =~= input_row(id, nn, row as nat));
                assert forall|k: int| 0 <= k < entries@.len() implies ssig_entry_ok(#[trigger] entries@[k], nn, last_in as nat, parts@, true) by {
                    assert(row * last_in + k < rows_in * last_in) by (nonlinear_arith)
                        requires
                            row < rows_in,
                            k < last_in,
                    ;
                    lemma_input_entry(*self, nn, parts@, (row * last_in + k) as nat);
                }
            }
            let ev = construct_ssig(&entries, n, last_in, parts, true);
            let ghost r0 = r@;
            r.push(ev);
            row = row + 1;
            proof {
                assert forall|row2: nat| row2 < row implies ssig_row_is(r@[row2 as int]@, #[trigger] input_row(id, nn, row2), nn, last_in as nat, parts@, true) by {
                    if row2 < row - 1 {
                        assert(r@[row2 as int] == r0[row2 as int]);
                    }
                }
            }
        }
        let off = rows_in;
        let mut orow: usize = 0;
        while orow < rows_out
            invariant
                self.evaluations_ok(),
                n == copy_domain(self.permutation, id),
                self.partitions_are(nn, parts@),
                id == self.input_dim@,
                od == self.permutation.shape@,
                nn == n,
                perm == &self.permutation,
                input_dim == &self.input_dim,
                last_in == id[id.len() - 1],
                last_out == od[od.len() - 1],
                off == out_offset(id),
                rows_out == shape_size(od.take(od.len() - 1)),
                shape_size(od) == rows_out * last_out,
                shape_size(od) <= usize::MAX,
                last_out * (n / last_out) <= n,
                orow <= rows_out,
                r@.len() == off + orow,
                forall|row2: nat| row2 < off ==> ssig_row_is(r@[row2 as int]@, #[trigger] input_row(id, nn, row2), nn, last_in as nat, parts@, true),
                forall|row2: nat|
                    row2 < orow ==> ssig_row_is(
                        r@[(off + row2) as int]@,
                        #[trigger] output_row(self.permutation, id, nn, row2),
                        nn,
                        last_out as nat,
                        parts@,
                        false,
                    ),
            decreases rows_out - orow,
        {
            let mut entries: Vec<((usize, usize), Option<(usize, usize)>)> = Vec::new();
            let mut t: usize = 0;
            while t < last_out
                invariant
                    self.evaluations_ok(),
                    n == copy_domain(self.permutation, id),
                    id == self.input_dim@,
                    od == self.permutation.shape@,
                    nn == n,
                    perm == &self.permutation,
                    input_dim == &self.input_dim,
                    last_out == od[od.len() - 1],
                    off == out_offset(id),
                    rows_out == shape_size(od.take(od.len() - 1)),
                    shape_size(od) == rows_out * last_out,
                    shape_size(od) <= usize::MAX,
                    orow < rows_out,
                    t <= last_out,
                    entries@ == output_row(self.permutation, id, nn, orow as nat).take(t as int),
                decreases last_out - t,
            {
                assert(orow * last_out + t < rows_out * last_out) by (nonlinear_arith)
                    requires
                        orow < rows_out,
                        t < last_out,
                ;
                let j = orow * last_out + t;
                let pos = output_position(&perm.shape, input_dim, off, j, n);
                proof {
                    if let Some(idx) = perm.data@[j as int] {
                        assert(index_in(id, idx@));
                        lemma_flat_fits(id, idx@, nn);
                    }
                }
                let src = flat_index(input_dim, &perm.data[j], n);
                entries.push((pos, src));
                t = t + 1;
                proof {
                    assert(entries@ =~= output_row(self.permutation, id, nn, orow as nat).take(t as int));
                }
            }
            proof {
                assert(entries@ =~= output_row(self.permutation, id, nn, orow as nat));
                assert forall|k: int| 0 <= k < entries@.len() implies ssig_entry_ok(#[trigger] entries@[k], nn, last_out as nat, parts@, false) by {
                    assert(orow * last_out + k < rows_out * last_out) by (nonlinear_arith)
                        requires
                            orow < rows_out,
                            k < last_out,
                    ;
                    lemma_output_entry(*self, nn, parts@, (orow * last_out + k) as nat);
                }
            }
            let ev = construct_ssig(&entries, n, last_out, parts, false);
            let ghost r0 = r@;
            r.push(ev);
            orow = orow + 1;
            proof {
                assert forall|row2: nat| row2 < off implies ssig_row_is(r@[row2 as int]@, #[trigger] input_row(id, nn, row2), nn, last_in as nat, parts@, true) by {
                    assert(r@[row2 as int] == r0[row2 as int]);
                }
                assert forall|row2: nat| row2 < orow implies ssig_row_is(
                    r@[(off + row2) as int]@,
                    #[trigger] output_row(self.permutation, id, nn, row2),
                    nn,
                    last_out as nat,
                    parts@,
                    false,
                ) by {
                    if row2 < orow - 1 {
                        assert(r@[(off + row2) as int] == r0[(off + row2) as int]);
                    }
                }
            }
        }
        r
    }

    /// The point of the domain `n` where the first padding element of the
    /// output (in row-major order) lies: its last coordinate times the
    /// spacing `n / last`; zero when the output has no padding.
    pub fn first_padding_point(&self, n: usize) -> (r: usize)
        requires
            self.partitions_ok(),
            n == copy_domain(self.permutation, self.input_dim@),
        ensures
            (forall|j: int| 0 <= j < self.permutation.data@.len() ==> (#[trigger] self.permutation.data@[j]) is Some) ==> r == 0,
            forall|j: int|
                #[trigger] is_first_none(self.permutation.data@, j) ==> r == (n / self.permutation.shape@.last()) * index_of(
                    self.permutation.shape@,
                    j as nat,
                ).last(),
    {
        let perm = &self.permutation;
        let last = perm.shape[perm.shape.len() - 1];
        let mut j: usize = 0;
        while j < perm.data.len()
            invariant
                self.partitions_ok(),
                perm == &self.permutation,
                last == perm.shape@.last(),
                j <= perm.data@.len(),
                forall|j2: int| 0 <= j2 < j ==> (#[trigger] perm.data@[j2]) is Some,
            decreases perm.data@.len() - j,
        {
            if perm.data[j].is_none() {
                let idx = index_at(&perm.shape, j);
                let t = idx[idx.len() - 1];
                let spacing = n / last;
                proof {
                    lemma_index_of(perm.shape@, j as nat);
                    assert(t < last);
                    lemma_spacing(n as nat, last as nat);
                    assert(spacing * t <= spacing * last) by (nonlinear_arith)
                        requires
                            t < last,
                    ;
                    vstd::arithmetic::div_mod::lemma_fundamental_div_mod(n as int, last as int);
                    vstd::arithmetic::div_mod::lemma_mod_pos_bound(n as int, last as int);
                    assert(spacing * last <= n) by (nonlinear_arith)
                        requires
                            n == last * spacing + n % last,
                            n % last >= 0,
                    ;
                    assert forall|j2: int| #[trigger] is_first_none(perm.data@, j2) implies j2 == j by {
                        if j2 < j {
                            assert(perm.data@[j2] is Some);
                        } else if j2 > j {
                            assert(perm.data@[j as int] is Some);
                        }
                    }
                }
                return spacing * t;
            }
            j = j + 1;
        }
        0
    }
}

/// Distinct input elements have distinct positions.
proof fn lemma_in_pos_injective(perm: Tensor<Option<Vec<usize>>>, id: Seq<usize>, n: nat, k1: nat, k2: nat)
    requires
        partitions_accept(perm, id, n),
        k1 < shape_size(id),
        k2 < shape_size(id),
        in_pos(id, n, k1) == in_pos(id, n, k2),
    ensures
        k1 == k2,
{
    let nd = id.len() as int;
    let pre = id.take(nd - 1);
    let i1 = index_of(id, k1);
    let i2 = index_of(id, k2);
    lemma_index_of(id, k1);
    lemma_index_of(id, k2);
    lemma_flat_fits(id, i1, n);
    lemma_flat_fits(id, i2, n);
    let f1 = flat_position(id, i1, n);
    let f2 = flat_position(id, i2, n);
    assert(f1 == f2);
    let p1 = i1.take(nd - 1);
    let p2 = i2.take(nd - 1);
    assert(index_in(pre, p1)) by {
        assert forall|t: int| 0 <= t < pre.len() implies #[trigger] p1[t] < pre[t] by {
            assert(i1[t] < id[t]);
        }
    }
    assert(index_in(pre, p2)) by {
        assert forall|t: int| 0 <= t < pre.len() implies #[trigger] p2[t] < pre[t] by {
            assert(i2[t] < id[t]);
        }
    }
    index_of_offset(pre, p1);
    index_of_offset(pre, p2);
    assert(p1 == p2);
    let last = id[nd - 1] as nat;
    let sp = n / last;
    assert(sp >= 1) by {
        vstd::arithmetic::div_mod::lemma_div_is_ordered(last as int, n as int, last as int);
        vstd::arithmetic::div_mod::lemma_div_basics(last as int);
    }
    let l1 = i1[nd - 1] as nat;
    let l2 = i2[nd - 1] as nat;
    assert(l1 == l2) by (nonlinear_arith)
        requires
            l1 * sp == l2 * sp,
            sp >= 1,
    ;
    assert(i1 =~= i2) by {
        assert forall|t: int| 0 <= t < nd implies i1[t] == i2[t] by {
            if t < nd - 1 {
                assert(p1[t] == i1[t] && p2[t] == i2[t]);
            }
        }
    }
}

/// Whether position `p` is that of an output element whose value in the
/// output of `run` is `v`.
pub open spec fn holds_value(blk: CopyConstraintBasicBlock, n: nat, input: Seq<Fe>, p: (usize, usize), v: Fe) -> bool {
    exists|j: int|
        0 <= j < blk.permutation.data@.len() && p == #[trigger] out_pos(blk.permutation.shape@, blk.input_dim@, n, j as nat)
            && copy_value(blk.permutation, blk.input_dim@, blk.padding_partitions@, input, j) == v
}

/// Every output position in the cycle of an input element holds, in the
/// output of `run`, the value of that element: the positions of one cycle
/// hold equal values, which is what the permutation argument checks.
pub proof fn input_cycle_holds_one_value(
    blk: CopyConstraintBasicBlock,
    n: nat,
    parts: Seq<(Option<(usize, usize)>, Partition)>,
    input: Seq<Fe>,
    k: nat,
    q: int,
)
    requires
        blk.partitions_ok(),
        n == copy_domain(blk.permutation, blk.input_dim@),
        blk.partitions_are(n, parts),
        k < shape_size(blk.input_dim@),
        part_lookup(parts, Some(in_pos(blk.input_dim@, n, k))) matches Some(cs) && 0 < q < cs[0]@.len(),
    ensures
        holds_value(blk, n, input, part_lookup(parts, Some(in_pos(blk.input_dim@, n, k)))->0[0]@[q], input[k as int]),
{
    let perm = blk.permutation;
    let id = blk.input_dim@;
    let key = in_pos(id, n, k);
    let cs = part_lookup(parts, Some(key))->0;
    assert(input_cycle_is(parts, perm, id, n, k, perm.data@.len()));
    let copies = copies_of(perm, id, n, key, perm.data@.len());
    assert(cs[0]@[q] == copies[q - 1]);
    lemma_copies_elems_from(perm, id, n, key, perm.data@.len(), q - 1);
    let j = choose|j: nat|
        j < perm.data@.len() && copies[q - 1] == #[trigger] out_pos(perm.shape@, id, n, j) && perm_pos(id, n, perm.data@[j as int])
            == Some(key);
    let idx = perm.data@[j as int]->0;
    assert(index_in(id, idx@));
    let k0 = offset_of(id, idx@);
    lemma_offset_bound(id, idx@);
    index_of_offset(id, idx@);
    lemma_flat_fits(id, idx@, n);
    assert(in_pos(id, n, k0) == key);
    lemma_in_pos_injective(perm, id, n, k0, k);
    assert(copy_value(perm, id, blk.padding_partitions@, input, j as int) == input[k as int]);
}

/// No output index is listed by two padding entries.
pub open spec fn listed_once(pads: Seq<(Fe, Vec<Vec<usize>>)>) -> bool {
    forall|e1: int, k1: int, e2: int, k2: int|
        0 <= e1 < pads.len() && 0 <= k1 < pads[e1].1@.len() && 0 <= e2 < pads.len() && 0 <= k2 < pads[e2].1@.len()
            && #[trigger] pads[e1].1@[k1]@ == #[trigger] pads[e2].1@[k2]@ ==> e1 == e2
}

/// An index listed by one padding entry only has that entry's value.
proof fn lemma_pad_value_of(pads: Seq<(Fe, Vec<Vec<usize>>)>, e: int, kk: int)
    requires
        listed_once(pads),
        0 <= e < pads.len(),
        0 <= kk < pads[e].1@.len(),
    ensures
        pad_value(pads, pads[e].1@[kk]@) == Some(pads[e].0),
    decreases pads.len(),
{
    let idx = pads[e].1@[kk]@;
    let l = pads.len() - 1;
    if e == l {
        assert(pads.last().1@[kk]@ == idx);
        assert(holds_index(pads.last().1@, idx));
    } else {
        if holds_index(pads.last().1@, idx) {
            let k2 = choose|k2: int| 0 <= k2 < pads.last().1@.len() && #[trigger] pads.last().1@[k2]@ == idx;
            assert(pads[l].1@[k2]@ == pads[e].1@[kk]@);
        }
        let d = pads.drop_last();
        assert(listed_once(d)) by {
            assert forall|e1: int, k1: int, e2: int, k2: int|
                0 <= e1 < d.len() && 0 <= k1 < d[e1].1@.len() && 0 <= e2 < d.len() && 0 <= k2 < d[e2].1@.len()
                    && #[trigger] d[e1].1@[k1]@ == #[trigger] d[e2].1@[k2]@ implies e1 == e2 by {
                assert(d[e1] == pads[e1] && d[e2] == pads[e2]);
            }
        }
        assert(d[e] == pads[e]);
        lemma_pad_value_of(d, e, kk);
    }
}

/// When no output index is listed by two padding entries, every position in
/// a padding cycle holds, in the output of `run`, the value of the padding
/// entry the cycle comes from.
pub proof fn padding_cycle_holds_one_value(
    blk: CopyConstraintBasicBlock,
    n: nat,
    parts: Seq<(Option<(usize, usize)>, Partition)>,
    input: Seq<Fe>,
    i: int,
)
    requires
        blk.partitions_ok(),
        n == copy_domain(blk.permutation, blk.input_dim@),
        blk.partitions_are(n, parts),
        partitions_padding(blk.permutation.shape@, blk.permutation.data@, blk.padding_partitions@),
        listed_once(blk.padding_partitions@),
        part_lookup(parts, None) matches Some(cs) && 0 <= i < cs.len(),
    ensures
        exists|e: int|
            #![trigger blk.padding_partitions@[e]]
            0 <= e < blk.padding_partitions@.len() && forall|q: int|
                0 <= q < part_lookup(parts, None)->0[i]@.len() ==> #[trigger] holds_value(
                    blk,
                    n,
                    input,
                    part_lookup(parts, None)->0[i]@[q],
                    blk.padding_partitions@[e].0,
                ),
{
    let perm = blk.permutation;
    let id = blk.input_dim@;
    let od = perm.shape@;
    let pads = blk.padding_partitions@;
    let order = choose|order: Seq<usize>|
        sorted_order(pads, order) && (part_lookup(parts, None) matches Some(cs) && cycles_are(
            cs,
            pad_cycles(pads, order, od, id, n, order.len()),
        ));
    let cs = part_lookup(parts, None)->0;
    let all = pad_cycles(pads, order, od, id, n, order.len());
    assert(cs[i]@ == all[i]);
    lemma_pad_cycles_elems(pads, order, od, id, n, order.len());
    let x = choose|x: int| 0 <= x < order.len() && #[trigger] all[i] == pad_cycle(pads, od, id, n, order[x] as int);
    let e = order[x] as int;
    assert forall|q: int| 0 <= q < cs[i]@.len() implies #[trigger] holds_value(blk, n, input, cs[i]@[q], pads[e].0) by {
        let idx = pads[e].1@[q]@;
        assert(cs[i]@[q] == idx_out_pos(od, id, n, idx));
        assert(index_in(od, idx));
        let j = offset_of(od, idx);
        lemma_offset_bound(od, idx);
        index_of_offset(od, idx);
        assert(perm.data@[j as int] is None);
        lemma_pad_value_of(pads, e, q);
        assert(out_pos(od, id, n, j) == cs[i]@[q]);
        assert(copy_value(perm, id, pads, input, j as int) == pads[e].0);
    }
}

/// Only one order lists the padding entries by value: so the padding
/// cycles that `partitions` builds are determined.
pub proof fn sorted_order_unique(pads: Seq<(Fe, Vec<Vec<usize>>)>, o1: Seq<usize>, o2: Seq<usize>)
    requires
        sorted_order(pads, o1),
        sorted_order(pads, o2),
    ensures
        o1 == o2,
{
    assert forall|x: int| 0 <= x < o1.len() implies o1[x] == o2[x] by {
        lemma_sorted_order_agree(pads, o1, o2, x);
    }
    assert(o1 =~= o2);
}

/// Two orders by value agree up to place `x`.
proof fn lemma_sorted_order_agree(pads: Seq<(Fe, Vec<Vec<usize>>)>, o1: Seq<usize>, o2: Seq<usize>, x: int)
    requires
        sorted_order(pads, o1),
        sorted_order(pads, o2),
        0 <= x < o1.len(),
    ensures
        forall|y: int| 0 <= y <= x ==> o1[y] == o2[y],
    decreases x,
{
    if x > 0 {
        lemma_sorted_order_agree(pads, o1, o2, x - 1);
    }
    let a = o1[x];
    let b = o2[x];
    if a != b {
        assert(in_order(o1, b as int));
        assert(in_order(o2, a as int));
        let xb = choose|xb: int| 0 <= xb < o1.len() && #[trigger] o1[xb] == b as int;
        let xa = choose|xa: int| 0 <= xa < o2.len() && #[trigger] o2[xa] == a as int;
        // Neither sits before place `x`, where the orders agree.
        if xb < x {
            assert(o2[xb] == b);
            assert(pad_before(pads, o2[xb] as int, o2[x] as int));
        }
        if xa < x {
            assert(o1[xa] == a);
            assert(pad_before(pads, o1[xa] as int, o1[x] as int));
        }
        assert(xb > x && xa > x);
        assert(pad_before(pads, o1[x] as int, o1[xb] as int));
        assert(pad_before(pads, o2[x] as int, o2[xa] as int));
    }
}

} // verus!
