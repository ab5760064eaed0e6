//! Copy constraints: an output whose elements are copies of input elements
//! (or padding values), and the permutation polynomials of Plonk's copy
//! constraint argument that encode which positions must be equal.
use crate::field::{domain_element, domain_element_at, fmul, int_to_field, Fe, fe_mul};
use crate::basic_block::copy_shape;
use crate::tensor::{
    index_at, index_in, index_of, lemma_index_of, lemma_offset_bound, offset, offset_any, offset_of, same_index,
    shape_size, suffix_sizes_fit, lemma_suffix_sizes_fit, Tensor,
};
use vstd::prelude::*;

verus! {

/// The position of an element in the flattened polynomials of a tensor whose
/// last dimension is spread over a domain of size `N`: the row-major position
/// of the index without its last coordinate, and the last coordinate times
/// the spacing `N / last`.
pub open spec fn flat_position(shape: Seq<usize>, j: Seq<usize>, N: nat) -> (nat, nat) {
    let nd = shape.len() as int;
    (
        offset_of(shape.take(nd - 1), j.take(nd - 1)),
        (j[nd - 1] as nat) * (N / (shape[nd - 1] as nat)),
    )
}

/// The indices `flat_index` accepts: as many coordinates as dimensions, a
/// non-empty last dimension, and positions that fit in a `usize`.
pub open spec fn flat_index_fits(shape: Seq<usize>, j: Seq<usize>, N: nat) -> bool {
    let nd = shape.len() as int;
    &&& nd >= 1
    &&& j.len() == nd
    &&& shape[nd - 1] > 0
    &&& suffix_sizes_fit(shape.take(nd - 1))
    &&& flat_position(shape, j, N).0 <= usize::MAX
    &&& flat_position(shape, j, N).1 <= usize::MAX
}

/// The first `n` elements of a sequence, as a vector.
fn take_vec(v: &Vec<usize>, n: usize) -> (r: Vec<usize>)
    requires
        n <= v.len(),
    ensures
        r@ == v@.take(n as int),
{
    let mut r: Vec<usize> = Vec::new();
    let mut k: usize = 0;
    while k < n
        invariant
            n <= v.len(),
            k <= n,
            r@ == v@.take(k as int),
        decreases n - k,
    {
        r.push(v[k]);
        k = k + 1;
        proof {
            assert(r@ =~= v@.take(k as int));
        }
    }
    r
}

/// Where an element of a tensor lies in its flattened polynomials, when the
/// tensor's last dimension is spread over a domain of size `N`.
pub fn flat_index(shape: &Vec<usize>, idx: &Option<Vec<usize>>, N: usize) -> (r: Option<(usize, usize)>)
    requires
        idx matches Some(j) ==> flat_index_fits(shape@, j@, N as nat),
    ensures
        idx is None ==> r is None,
        idx matches Some(j) ==> r matches Some(p) && p.0 == flat_position(shape@, j@, N as nat).0 && p.1
            == flat_position(shape@, j@, N as nat).1,
{
    match idx {
        None => None,
        Some(j) => {
            let nd = shape.len();
            let spacing = N / shape[nd - 1];
            let prefix = take_vec(shape, nd - 1);
            let jprefix = take_vec(j, nd - 1);
            let left = offset_any(&prefix, &jprefix);
            let right = j[nd - 1] * spacing;
            Some((left, right))
        },
    }
}

/// The partition of a key: the cycles of positions that share its value.
pub type Partition = Vec<Vec<(usize, usize)>>;

/// The cycles stored under `key`, from the first entry with that key.
pub open spec fn part_lookup(parts: Seq<(Option<(usize, usize)>, Partition)>, key: Option<(usize, usize)>) -> Option<
    Seq<Vec<(usize, usize)>>,
>
    decreases parts.len(),
{
    if parts.len() == 0 {
        None
    } else if parts[0].0 == key {
        Some(parts[0].1@)
    } else {
        part_lookup(parts.drop_first(), key)
    }
}

/// The first position of `x` in a cycle.
pub open spec fn first_pos(c: Seq<(usize, usize)>, x: (usize, usize)) -> Option<int>
    decreases c.len(),
{
    if c.len() == 0 {
        None
    } else if c.last() == x && first_pos(c.drop_last(), x) is None {
        Some(c.len() - 1)
    } else {
        first_pos(c.drop_last(), x)
    }
}

/// The successor of `x` in the first cycle that holds it.
pub open spec fn cycle_next(cycles: Seq<Vec<(usize, usize)>>, x: (usize, usize)) -> Option<(usize, usize)>
    decreases cycles.len(),
{
    if cycles.len() == 0 {
        None
    } else {
        match first_pos(cycles[0]@, x) {
            Some(p) => Some(cycles[0]@[(p + 1) % (cycles[0]@.len() as int)]),
            None => cycle_next(cycles.drop_first(), x),
        }
    }
}

/// The key whose partition holds the cycle of an entry: the position itself
/// for input elements, the input position an output element copies otherwise.
pub open spec fn ssig_key(e: ((usize, usize), Option<(usize, usize)>), is_input: bool) -> Option<(usize, usize)> {
    if is_input {
        Some(e.0)
    } else {
        e.1
    }
}

/// The successor that the permutation assigns to an entry.
pub open spec fn ssig_sigma(
    e: ((usize, usize), Option<(usize, usize)>),
    parts: Seq<(Option<(usize, usize)>, Partition)>,
    is_input: bool,
) -> (usize, usize) {
    cycle_next(part_lookup(parts, ssig_key(e, is_input)).unwrap(), e.0).unwrap()
}

/// The encoding of position `x` shifted by `i` in a domain of size `n`:
/// `(x.0 + 1) * omega^(x.1 + i)`, with the polynomial number cut to 32 bits.
pub open spec fn ssig_entry(x: (usize, usize), n: nat, i: nat) -> nat {
    fmul(int_to_field((x.0 as i32) as int + 1), domain_element(n, (x.1 + i) as nat))
}

/// The encoding of a position of polynomial `poly` whose point of the
/// evaluation domain is `w`: `(poly + 1) * w`, with the polynomial number cut
/// to 32 bits.
pub fn encode_position(poly: usize, w: &Fe) -> (r: Fe)
    requires
        (poly as i32) < i32::MAX,
    ensures
        r@ == fmul(int_to_field((poly as i32) as int + 1), w@),
{
    let f = Fe::from_i64((poly as i32 + 1) as i64);
    fe_mul(&f, w)
}

/// The inputs `construct_ssig` accepts: every entry's key has a partition
/// whose cycles hold it, the domain exists, and every number stays in range.
pub open spec fn ssig_accepts(
    idxs: Seq<((usize, usize), Option<(usize, usize)>)>,
    N: nat,
    last_dim: nat,
    parts: Seq<(Option<(usize, usize)>, Partition)>,
    is_input: bool,
) -> bool {
    &&& last_dim > 0
    &&& N <= 268435456
    &&& idxs.len() * (N / last_dim) <= usize::MAX
    &&& forall|k: int| 0 <= k < idxs.len() ==> ssig_entry_ok(#[trigger] idxs[k], N, last_dim, parts, is_input)
}

/// An entry `construct_ssig` accepts: its key has a partition whose cycles
/// hold its position, and the numbers it leads to stay in range.
pub open spec fn ssig_entry_ok(
    e: ((usize, usize), Option<(usize, usize)>),
    N: nat,
    last_dim: nat,
    parts: Seq<(Option<(usize, usize)>, Partition)>,
    is_input: bool,
) -> bool {
    &&& part_lookup(parts, ssig_key(e, is_input)) is Some
    &&& cycle_next(part_lookup(parts, ssig_key(e, is_input)).unwrap(), e.0) is Some
    &&& (ssig_sigma(e, parts, is_input).0 as i32) < i32::MAX
    &&& N / last_dim > 1 ==> (e.0.0 as i32) < i32::MAX
    &&& e.0.1 + N / last_dim <= usize::MAX
}

/// The evaluations `construct_ssig` gives for `idxs`: `N / last_dim` of them
/// per entry; the first encodes the entry's successor in its cycle, the
/// others the positions that spread the entry over the larger domain.
pub open spec fn ssig_row_is(
    row: Seq<Fe>,
    idxs: Seq<((usize, usize), Option<(usize, usize)>)>,
    N: nat,
    last_dim: nat,
    parts: Seq<(Option<(usize, usize)>, Partition)>,
    is_input: bool,
) -> bool {
    let sp = N / last_dim;
    &&& row.len() == idxs.len() * sp
    &&& forall|k: int, i: int|
        0 <= k < idxs.len() && 0 <= i < sp ==> #[trigger] row[k * sp + i]@ == (if i == 0 {
            ssig_entry(ssig_sigma(idxs[k], parts, is_input), N, 0)
        } else {
            ssig_entry(idxs[k].0, N, i as nat)
        })
}

/// The first entry of `parts` with the given key.
fn find_partition<'a>(parts: &'a Vec<(Option<(usize, usize)>, Partition)>, key: &Option<(usize, usize)>) -> (r: Option<&'a Partition>)
    ensures
        part_lookup(parts@, *key) is None ==> r is None,
        part_lookup(parts@, *key) matches Some(c) ==> r matches Some(p) && p@ == c,
{
    let mut p: usize = 0;
    proof {
        assert(parts@.skip(0) =~= parts@);
    }
    while p < parts.len()
        invariant
            p <= parts.len(),
            part_lookup(parts@, *key) == part_lookup(parts@.skip(p as int), *key),
        decreases parts.len() - p,
    {
        proof {
            assert(parts@.skip(p as int).drop_first() =~= parts@.skip(p + 1));
        }
        let same = match (&parts[p].0, key) {
            (None, None) => true,
            (Some(a), Some(b)) => a.0 == b.0 && a.1 == b.1,
            _ => false,
        };
        if same {
            return Some(&parts[p].1);
        }
        p = p + 1;
    }
    None
}

/// The first position of `x` in a cycle, searching from the front.
fn position_in(c: &Vec<(usize, usize)>, x: (usize, usize)) -> (r: Option<usize>)
    ensures
        first_pos(c@, x) is None ==> r is None,
        first_pos(c@, x) matches Some(q) ==> r == Some(q as usize),
        r matches Some(q) ==> q < c.len(),
{
    let mut q: usize = 0;
    while q < c.len()
        invariant
            q <= c.len(),
            forall|m: int| 0 <= m < q ==> c@[m] != x,
        decreases c.len() - q,
    {
        if c[q].0 == x.0 && c[q].1 == x.1 {
            proof {
                lemma_first_pos(c@, x, q as int);
            }
            return Some(q);
        }
        q = q + 1;
    }
    proof {
        lemma_first_pos_none(c@, x);
    }
    None
}

proof fn lemma_first_pos(c: Seq<(usize, usize)>, x: (usize, usize), q: int)
    requires
        0 <= q < c.len(),
        c[q] == x,
        forall|m: int| 0 <= m < q ==> c[m] != x,
    ensures
        first_pos(c, x) == Some(q),
    decreases c.len(),
{
    if q < c.len() - 1 {
        lemma_first_pos(c.drop_last(), x, q);
    } else {
        lemma_first_pos_none(c.drop_last(), x);
    }
}

proof fn lemma_first_pos_none(c: Seq<(usize, usize)>, x: (usize, usize))
    requires
        forall|m: int| 0 <= m < c.len() ==> c[m] != x,
    ensures
        first_pos(c, x) is None,
    decreases c.len(),
{
    if c.len() > 0 {
        lemma_first_pos_none(c.drop_last(), x);
    }
}

pub(crate) proof fn lemma_first_pos_bound(c: Seq<(usize, usize)>, x: (usize, usize))
    ensures
        first_pos(c, x) matches Some(q) ==> 0 <= q < c.len() && c[q] == x,
    decreases c.len(),
{
    if c.len() > 0 {
        lemma_first_pos_bound(c.drop_last(), x);
    }
}

/// The successor of `x` in the first cycle that holds it.
fn next_in_cycles(cycles: &Partition, x: (usize, usize)) -> (r: Option<(usize, usize)>)
    ensures
        r == cycle_next(cycles@, x),
{
    let mut k: usize = 0;
    proof {
        assert(cycles@.skip(0) =~= cycles@);
    }
    while k < cycles.len()
        invariant
            k <= cycles.len(),
            cycle_next(cycles@, x) == cycle_next(cycles@.skip(k as int), x),
        decreases cycles.len() - k,
    {
        proof {
            assert(cycles@.skip(k as int).drop_first() =~= cycles@.skip(k + 1));
            assert(cycles@.skip(k as int)[0] == cycles@[k as int]);
            lemma_first_pos_bound(cycles@[k as int]@, x);
        }
        let c = &cycles[k];
        match position_in(c, x) {
            Some(pos) => {
                return Some(c[(pos + 1) % c.len()]);
            },
            None => {},
        }
        k = k + 1;
    }
    None
}

/// The evaluations of one permutation polynomial: for each entry, the
/// encoding of its successor in its cycle, followed by the encodings of the
/// positions that spread the entry over the larger domain, each of which is
/// its own successor.
pub fn construct_ssig(
    idxs: &Vec<((usize, usize), Option<(usize, usize)>)>,
    N: usize,
    last_dim: usize,
    partitions: &Vec<(Option<(usize, usize)>, Partition)>,
    is_input: bool,
) -> (r: Vec<Fe>)
    requires
        ssig_accepts(idxs@, N as nat, last_dim as nat, partitions@, is_input),
    ensures
        ssig_row_is(r@, idxs@, N as nat, last_dim as nat, partitions@, is_input),
{
    let spacing = N / last_dim;
    let ghost sp = spacing as int;
    let mut r: Vec<Fe> = Vec::new();
    let mut k: usize = 0;
    while k < idxs.len()
        invariant
            ssig_accepts(idxs@, N as nat, last_dim as nat, partitions@, is_input),
            spacing == N / last_dim,
            sp == spacing,
            k <= idxs.len(),
            r@.len() == k * spacing,
            forall|k2: int, i: int|
                0 <= k2 < k && 0 <= i < sp ==> #[trigger] r@[k2 * sp + i]@ == (if i == 0 {
                    ssig_entry(ssig_sigma(idxs@[k2], partitions@, is_input), N as nat, 0)
                } else {
                    ssig_entry(idxs@[k2].0, N as nat, i as nat)
                }),
        decreases idxs.len() - k,
    {
        let e = idxs[k];
        assert(idxs@[k as int] == e);
        let key: Option<(usize, usize)> = if is_input {
            Some(e.0)
        } else {
            e.1
        };
        let cycles = find_partition(partitions, &key).unwrap();
        let sigma = next_in_cycles(cycles, e.0).unwrap();
        let ghost base = r@.len();
        let ghost r0 = r@;
        proof {
            assert((k + 1) * spacing <= idxs@.len() * spacing) by (nonlinear_arith)
                requires
                    k < idxs@.len(),
            ;
            assert((k + 1) * spacing == k * spacing + spacing) by (nonlinear_arith);
        }
        if spacing > 0 {
            let w = domain_element_at(N, sigma.1);
            r.push(encode_position(sigma.0, &w));
            proof {
                assert(sigma.1 + 0 == sigma.1);
            }
        }
        let mut i: usize = 1;
        while i < spacing
            invariant
                ssig_accepts(idxs@, N as nat, last_dim as nat, partitions@, is_input),
                spacing == N / last_dim,
                sp == spacing,
                k < idxs.len(),
                e == idxs@[k as int],
                sigma == ssig_sigma(e, partitions@, is_input),
                base == k * spacing,
                1 <= i,
                spacing > 0 ==> i <= spacing,
                spacing > 0 ==> r@.len() == base + i,
                spacing == 0 ==> r@.len() == base,
                r0.len() == base,
                forall|m: int| 0 <= m < base ==> #[trigger] r@[m] == r0[m],
                spacing > 0 ==> r@[base as int]@ == ssig_entry(sigma, N as nat, 0),
                forall|i2: int| 1 <= i2 < i && i2 < spacing ==> #[trigger] r@[base + i2]@ == ssig_entry(e.0, N as nat, i2 as nat),
            decreases spacing - i,
        {
            let w = domain_element_at(N, e.0.1 + i);
            r.push(encode_position(e.0.0, &w));
            i = i + 1;
        }
        proof {
            assert forall|k2: int, i2: int|
                0 <= k2 < k + 1 && 0 <= i2 < sp implies #[trigger] r@[k2 * sp + i2]@ == (if i2 == 0 {
                    ssig_entry(ssig_sigma(idxs@[k2], partitions@, is_input), N as nat, 0)
                } else {
                    ssig_entry(idxs@[k2].0, N as nat, i2 as nat)
                }) by {
                if k2 < k {
                    assert(k2 * sp + i2 < k * sp) by (nonlinear_arith)
                        requires
                            0 <= k2 < k,
                            0 <= i2 < sp,
                    ;
                } else {
                    assert(k2 * sp + i2 == base + i2);
                }
            }
        }
        k = k + 1;
    }
    r
}

} // verus!

verus! {

/// Whether `idx` is one of the indices in a list.
pub open spec fn holds_index(list: Seq<Vec<usize>>, idx: Seq<usize>) -> bool {
    exists|k: int| 0 <= k < list.len() && #[trigger] list[k]@ == idx
}

/// The padding value of an output index: the value of the last padding
/// partition that lists it.
pub open spec fn pad_value(parts: Seq<(Fe, Vec<Vec<usize>>)>, idx: Seq<usize>) -> Option<Fe>
    decreases parts.len(),
{
    if parts.len() == 0 {
        None
    } else if holds_index(parts.last().1@, idx) {
        Some(parts.last().0)
    } else {
        pad_value(parts.drop_last(), idx)
    }
}

/// No padding value has two entries: the padding partitions are keyed by
/// their value.
pub open spec fn pad_values_distinct(parts: Seq<(Fe, Vec<Vec<usize>>)>) -> bool {
    forall|e1: int, e2: int| 0 <= e1 < e2 < parts.len() ==> (#[trigger] parts[e1]).0@ != (#[trigger] parts[e2]).0@
}

/// Every index listed in a padding partition lies inside the output shape.
pub open spec fn partitions_in(shape: Seq<usize>, parts: Seq<(Fe, Vec<Vec<usize>>)>) -> bool {
    forall|p: int, k: int|
        0 <= p < parts.len() && 0 <= k < parts[p].1@.len() ==> index_in(shape, #[trigger] parts[p].1@[k]@)
}

/// Every index listed in a padding partition is a padding position of the
/// permutation.
pub open spec fn partitions_padding(
    shape: Seq<usize>,
    data: Seq<Option<Vec<usize>>>,
    parts: Seq<(Fe, Vec<Vec<usize>>)>,
) -> bool {
    forall|p: int, k: int|
        0 <= p < parts.len() && 0 <= k < parts[p].1@.len() ==> data[offset_of(shape, #[trigger] parts[p].1@[k]@)
            as int] is None
}

/// Whether the index `idx` is listed in a list of indices.
fn list_holds(list: &Vec<Vec<usize>>, idx: &Vec<usize>) -> (r: bool)
    ensures
        r == holds_index(list@, idx@),
{
    let mut k: usize = 0;
    while k < list.len()
        invariant
            k <= list.len(),
            forall|m: int| 0 <= m < k ==> #[trigger] list@[m]@ != idx@,
        decreases list.len() - k,
    {
        if same_index(&list[k], idx) {
            return true;
        }
        k = k + 1;
    }
    false
}

/// The padding value of an output index.
fn find_pad(parts: &Vec<(Fe, Vec<Vec<usize>>)>, idx: &Vec<usize>) -> (r: Option<Fe>)
    ensures
        r == pad_value(parts@, idx@),
{
    let mut k: usize = parts.len();
    proof {
        assert(parts@.take(k as int) =~= parts@);
    }
    while k > 0
        invariant
            k <= parts.len(),
            pad_value(parts@, idx@) == pad_value(parts@.take(k as int), idx@),
        decreases k,
    {
        proof {
            assert(parts@.take(k as int).drop_last() =~= parts@.take(k - 1));
            assert(parts@.take(k as int).last() == parts@[k - 1]);
        }
        if list_holds(&parts[k - 1].1, idx) {
            return Some(parts[k - 1].0);
        }
        k = k - 1;
    }
    None
}

/// Whether every index listed in the padding partitions is a padding
/// position of the permutation.
pub fn check_padding_partition(permutation: &Tensor<Option<Vec<usize>>>, padding_partitions: &Vec<(Fe, Vec<Vec<usize>>)>) -> (r:
    bool)
    requires
        permutation.wf(),
        suffix_sizes_fit(permutation.shape@),
        partitions_in(permutation.shape@, padding_partitions@),
    ensures
        r == partitions_padding(permutation.shape@, permutation.data@, padding_partitions@),
{
    let mut p: usize = 0;
    while p < padding_partitions.len()
        invariant
            p <= padding_partitions.len(),
            permutation.wf(),
            suffix_sizes_fit(permutation.shape@),
            partitions_in(permutation.shape@, padding_partitions@),
            forall|p2: int, k: int|
                0 <= p2 < p && 0 <= k < padding_partitions@[p2].1@.len() ==> permutation.data@[offset_of(
                    permutation.shape@,
                    #[trigger] padding_partitions@[p2].1@[k]@,
                ) as int] is None,
        decreases padding_partitions.len() - p,
    {
        let list = &padding_partitions[p].1;
        let mut k: usize = 0;
        while k < list.len()
            invariant
                p < padding_partitions.len(),
                list == padding_partitions@[p as int].1,
                k <= list.len(),
                permutation.wf(),
                suffix_sizes_fit(permutation.shape@),
                partitions_in(permutation.shape@, padding_partitions@),
                forall|k2: int|
                    0 <= k2 < k ==> permutation.data@[offset_of(permutation.shape@, #[trigger] list@[k2]@) as int] is None,
            decreases list.len() - k,
        {
            assert(index_in(permutation.shape@, padding_partitions@[p as int].1@[k as int]@));
            let o = offset(&permutation.shape, &list[k]);
            if permutation.data[o].is_some() {
                return false;
            }
            k = k + 1;
        }
        p = p + 1;
    }
    true
}

} // verus!

verus! {

/// The row-major positions of the padding elements of a permutation, in order.
pub open spec fn none_positions(data: Seq<Option<Vec<usize>>>) -> Seq<nat>
    decreases data.len(),
{
    if data.len() == 0 {
        Seq::empty()
    } else {
        none_positions(data.drop_last()) + (if data.last() is None {
            seq![(data.len() - 1) as nat]
        } else {
            Seq::empty()
        })
    }
}

/// The indices of the padding elements of a permutation, in row-major order.
pub open spec fn none_indices(shape: Seq<usize>, data: Seq<Option<Vec<usize>>>) -> Seq<Seq<usize>> {
    none_positions(data).map_values(|j: nat| index_of(shape, j))
}

/// The indices held by a list, as sequences.
pub open spec fn index_list(list: Seq<Vec<usize>>) -> Seq<Seq<usize>> {
    list.map_values(|v: Vec<usize>| v@)
}

/// The padding partitions of a permutation whose padding elements are all
/// zero: one partition of value zero that lists every padding index in
/// row-major order, or none when there is no padding.
pub fn zero_padding_partition(permutation: &Tensor<Option<Vec<usize>>>) -> (r: Vec<(Fe, Vec<Vec<usize>>)>)
    requires
        permutation.wf(),
    ensures
        none_positions(permutation.data@).len() == 0 ==> r@.len() == 0,
        none_positions(permutation.data@).len() > 0 ==> r@.len() == 1 && r@[0].0@ == 0 && index_list(r@[0].1@)
            == none_indices(permutation.shape@, permutation.data@),
{
    let mut list: Vec<Vec<usize>> = Vec::new();
    if permutation.data.len() == 0 {
        proof {
            assert(permutation.data@ =~= Seq::<Option<Vec<usize>>>::empty());
        }
        return Vec::new();
    }
    proof {
        lemma_suffix_sizes_fit(permutation.shape@);
    }
    let mut j: usize = 0;
    while j < permutation.data.len()
        invariant
            permutation.wf(),
            suffix_sizes_fit(permutation.shape@),
            j <= permutation.data.len(),
            index_list(list@) == none_indices(permutation.shape@, permutation.data@.take(j as int)),
            list@.len() == none_positions(permutation.data@.take(j as int)).len(),
        decreases permutation.data.len() - j,
    {
        let ghost before = list@;
        proof {
            assert(permutation.data@.take(j + 1).drop_last() =~= permutation.data@.take(j as int));
            assert(permutation.data@.take(j + 1).last() == permutation.data@[j as int]);
        }
        if permutation.data[j].is_none() {
            let idx = index_at(&permutation.shape, j);
            list.push(idx);
            proof {
                assert(index_list(list@) =~= index_list(before).push(idx@));
                assert(none_indices(permutation.shape@, permutation.data@.take(j + 1)) =~= none_indices(
                    permutation.shape@,
                    permutation.data@.take(j as int),
                ).push(index_of(permutation.shape@, j as nat)));
            }
        } else {
            proof {
                assert(none_positions(permutation.data@.take(j + 1)) =~= none_positions(
                    permutation.data@.take(j as int),
                ));
            }
        }
        j = j + 1;
    }
    proof {
        assert(permutation.data@.take(j as int) =~= permutation.data@);
    }
    let mut r: Vec<(Fe, Vec<Vec<usize>>)> = Vec::new();
    if list.len() > 0 {
        r.push((Fe::zero(), list));
    }
    r
}

/// Plonk's copy constraint over one input and one output: each output
/// element is the input element that the permutation names at its index, or,
/// where the permutation holds no index, a padding value. The padding
/// partitions pair each padding value with the output indices that hold it.
#[derive(Debug)]
pub struct CopyConstraintBasicBlock {
    pub permutation: Tensor<Option<Vec<usize>>>,
    pub input_dim: Vec<usize>,
    pub padding_partitions: Vec<(Fe, Vec<Vec<usize>>)>,
}

/// The output element at row-major position `j`.
pub open spec fn copy_value(
    permutation: Tensor<Option<Vec<usize>>>,
    input_dim: Seq<usize>,
    parts: Seq<(Fe, Vec<Vec<usize>>)>,
    input: Seq<Fe>,
    j: int,
) -> Fe {
    match permutation.data@[j] {
        Some(idx) => input[offset_of(input_dim, idx@) as int],
        None => pad_value(parts, index_of(permutation.shape@, j as nat)).unwrap(),
    }
}

impl CopyConstraintBasicBlock {
    /// The inputs `run` accepts: one input of shape `input_dim`, a
    /// permutation whose indices lie inside it, padding partitions that list
    /// padding positions only, and a padding value for every padding position.
    pub open spec fn accepts(&self, inputs: Seq<Tensor<Fe>>) -> bool {
        let perm = self.permutation;
        &&& inputs.len() == 1
        &&& inputs[0].wf()
        &&& inputs[0].shape@ == self.input_dim@
        &&& perm.wf()
        &&& suffix_sizes_fit(perm.shape@)
        &&& suffix_sizes_fit(self.input_dim@)
        &&& partitions_in(perm.shape@, self.padding_partitions@)
        &&& pad_values_distinct(self.padding_partitions@)
        &&& partitions_padding(perm.shape@, perm.data@, self.padding_partitions@)
        &&& forall|j: int|
            0 <= j < perm.data@.len() ==> match #[trigger] perm.data@[j] {
                Some(idx) => index_in(self.input_dim@, idx@),
                None => pad_value(self.padding_partitions@, index_of(perm.shape@, j as nat)) is Some,
            }
    }

    pub fn run(&self, _model: &Tensor<Fe>, inputs: &Vec<Tensor<Fe>>) -> (r: Vec<Tensor<Fe>>)
        requires
            self.accepts(inputs@),
        ensures
            r@.len() == 1,
            r@[0].wf(),
            r@[0].shape@ == self.permutation.shape@,
            forall|j: int|
                0 <= j < r@[0].data@.len() ==> #[trigger] r@[0].data@[j] == copy_value(
                    self.permutation,
                    self.input_dim@,
                    self.padding_partitions@,
                    inputs@[0].data@,
                    j,
                ),
    {
        let perm = &self.permutation;
        let input = &inputs[0];
        let mut data: Vec<Fe> = Vec::new();
        let mut j: usize = 0;
        while j < perm.data.len()
            invariant
                self.accepts(inputs@),
                perm == self.permutation,
                input == inputs@[0],
                j <= perm.data.len(),
                data@.len() == j,
                forall|j2: int|
                    0 <= j2 < j ==> #[trigger] data@[j2] == copy_value(
                        self.permutation,
                        self.input_dim@,
                        self.padding_partitions@,
                        inputs@[0].data@,
                        j2,
                    ),
            decreases perm.data.len() - j,
        {
            match &perm.data[j] {
                Some(idx) => {
                    proof {
                        lemma_offset_bound(self.input_dim@, idx@);
                    }
                    let o = offset(&self.input_dim, idx);
                    data.push(input.data[o]);
                },
                None => {
                    let idx = index_at(&perm.shape, j);
                    let v = find_pad(&self.padding_partitions, &idx);
                    data.push(v.unwrap());
                },
            }
            j = j + 1;
        }
        let mut r: Vec<Tensor<Fe>> = Vec::new();
        r.push(Tensor { shape: copy_shape(&perm.shape), data });
        r
    }
}

} // verus!

verus! {

/// The padding positions of a permutation are padding positions inside it,
/// and every padding position is one of them.
proof fn lemma_none_positions(data: Seq<Option<Vec<usize>>>)
    ensures
        forall|m: int|
            0 <= m < none_positions(data).len() ==> #[trigger] none_positions(data)[m] < data.len() && data[none_positions(
                data,
            )[m] as int] is None,
        forall|j: int|
            0 <= j < data.len() && data[j] is None ==> exists|m: int|
                0 <= m < none_positions(data).len() && #[trigger] none_positions(data)[m] == j,
    decreases data.len(),
{
    if data.len() > 0 {
        let d = data.drop_last();
        lemma_none_positions(d);
        let tail: Seq<nat> = if data.last() is None {
            seq![(data.len() - 1) as nat]
        } else {
            Seq::empty()
        };
        assert(none_positions(data) == none_positions(d) + tail);
        assert forall|j: int| 0 <= j < data.len() && data[j] is None implies exists|m: int|
            0 <= m < none_positions(data).len() && #[trigger] none_positions(data)[m] == j by {
            if j < data.len() - 1 {
                assert(d[j] == data[j]);
                let m = choose|m: int| 0 <= m < none_positions(d).len() && #[trigger] none_positions(d)[m] == j;
                assert(none_positions(data)[m] == j);
            } else {
                assert(none_positions(data)[none_positions(d).len() as int] == j);
            }
        }
    }
}

/// The padding partition that `zero_padding_partition` gives is one that a
/// copy constraint accepts: its indices lie inside the output, they are
/// padding positions, and every padding position gets the value zero.
pub proof fn zero_padding_partition_accepted(shape: Seq<usize>, data: Seq<Option<Vec<usize>>>, parts: Seq<(Fe, Vec<Vec<usize>>)>)
    requires
        data.len() == shape_size(shape),
        none_positions(data).len() == 0 ==> parts.len() == 0,
        none_positions(data).len() > 0 ==> parts.len() == 1 && parts[0].0@ == 0 && index_list(parts[0].1@) == none_indices(
            shape,
            data,
        ),
    ensures
        partitions_in(shape, parts),
        pad_values_distinct(parts),
        partitions_padding(shape, data, parts),
        forall|j: int|
            0 <= j < data.len() && #[trigger] data[j] is None ==> pad_value(parts, index_of(shape, j as nat)) is Some
                && pad_value(parts, index_of(shape, j as nat))->0@ == 0,
{
    lemma_none_positions(data);
    let np = none_positions(data);
    if np.len() > 0 {
        let list = parts[0].1@;
        assert(index_list(list).len() == list.len());
        assert(none_indices(shape, data).len() == np.len());
        assert(list.len() == np.len());
        assert forall|k: int| 0 <= k < list.len() implies list[k]@ == index_of(shape, #[trigger] np[k]) && np[k]
            < data.len() by {
            assert(index_list(list)[k] == list[k]@);
            assert(none_indices(shape, data)[k] == index_of(shape, np[k]));
        }
        assert forall|p: int, k: int| 0 <= p < parts.len() && 0 <= k < parts[p].1@.len() implies index_in(
            shape,
            #[trigger] parts[p].1@[k]@,
        ) by {
            assert(p == 0);
            lemma_index_of(shape, np[k]);
        }
        assert forall|p: int, k: int| 0 <= p < parts.len() && 0 <= k < parts[p].1@.len() implies data[offset_of(
            shape,
            #[trigger] parts[p].1@[k]@,
        ) as int] is None by {
            assert(p == 0);
            lemma_index_of(shape, np[k]);
        }
        assert forall|j: int| 0 <= j < data.len() && #[trigger] data[j] is None implies pad_value(
            parts,
            index_of(shape, j as nat),
        ) is Some && pad_value(parts, index_of(shape, j as nat))->0@ == 0 by {
            let m = choose|m: int| 0 <= m < np.len() && #[trigger] np[m] == j;
            assert(list[m]@ == index_of(shape, j as nat));
            assert(holds_index(list, index_of(shape, j as nat)));
            assert(parts.last() == parts[0]);
        }
    } else {
        assert forall|j: int| 0 <= j < data.len() && #[trigger] data[j] is None implies pad_value(
            parts,
            index_of(shape, j as nat),
        ) is Some && pad_value(parts, index_of(shape, j as nat))->0@ == 0 by {
            let m = choose|m: int| 0 <= m < np.len() && #[trigger] np[m] == j;
        }
    }
}

} // verus!
