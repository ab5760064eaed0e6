//! Combining the outputs of a block run at every position of a larger
//! tensor into tensors with those positions as leading axes.
use crate::tensor::{shape_size, Tensor};
use vstd::prelude::*;

verus! {

/// The elements of output `i` of the first `n` runs, one run after another.
pub open spec fn gathered<T>(runs: Seq<Vec<Tensor<T>>>, i: int, n: nat) -> Seq<T>
    decreases n,
{
    if n == 0 {
        Seq::empty()
    } else {
        gathered(runs, i, (n - 1) as nat) + runs[n - 1]@[i].data@
    }
}

/// The runs `combineArr` accepts: at least one, each with the outputs of the
/// first run, of the same sizes, and combined sizes that fit in a `usize`.
pub open spec fn combine_accepts<T>(arr: Tensor<Vec<Tensor<T>>>) -> bool {
    let runs = arr.data@;
    &&& arr.wf()
    &&& runs.len() >= 1
    &&& forall|e: int| 0 <= e < runs.len() ==> (#[trigger] runs[e])@.len() == runs[0]@.len()
    &&& forall|e: int, i: int|
        0 <= e < runs.len() && 0 <= i < runs[0]@.len() ==> (#[trigger] runs[e]@[i]).data@.len() == runs[0]@[i].data@.len()
    &&& forall|i: int|
        0 <= i < runs[0]@.len() ==> (#[trigger] runs[0]@[i]).wf() && runs.len() * runs[0]@[i].data@.len() <= usize::MAX
}

/// The size of two shapes one after the other is the product of their sizes.
proof fn lemma_size_append(a: Seq<usize>, b: Seq<usize>)
    ensures
        shape_size(a + b) == shape_size(a) * shape_size(b),
    decreases a.len(),
{
    if a.len() > 0 {
        assert((a + b).drop_first() =~= a.drop_first() + b);
        lemma_size_append(a.drop_first(), b);
        let x = a[0] as nat;
        assert((a + b)[0] == a[0]);
        assert(shape_size(a + b) == x * shape_size((a + b).drop_first()));
        assert(x * (shape_size(a.drop_first()) * shape_size(b)) == (x * shape_size(a.drop_first())) * shape_size(b))
            by (nonlinear_arith);
    } else {
        assert(a + b =~= b);
        assert(shape_size(a) == 1);
    }
}

/// For each output of the runs, the tensor whose leading axes are the
/// positions of the runs and whose remaining axes are the output's own.
#[allow(non_snake_case)]
pub fn combineArr<T: Copy>(arr: &Tensor<Vec<Tensor<T>>>) -> (r: Vec<Tensor<T>>)
    requires
        combine_accepts(*arr),
    ensures
        r@.len() == arr.data@[0]@.len(),
        forall|i: int|
            0 <= i < r@.len() ==> {
                &&& (#[trigger] r@[i]).wf()
                &&& r@[i].shape@ == arr.shape@ + arr.data@[0]@[i].shape@
                &&& r@[i].data@ == gathered(arr.data@, i, arr.data@.len())
            },
{
    let runs = &arr.data;
    let count = runs[0].len();
    let mut r: Vec<Tensor<T>> = Vec::new();
    let mut i: usize = 0;
    while i < count
        invariant
            combine_accepts(*arr),
            runs == arr.data,
            count == runs@[0]@.len(),
            i <= count,
            r@.len() == i,
            forall|i2: int|
                0 <= i2 < i ==> {
                    &&& (#[trigger] r@[i2]).wf()
                    &&& r@[i2].shape@ == arr.shape@ + arr.data@[0]@[i2].shape@
                    &&& r@[i2].data@ == gathered(arr.data@, i2, arr.data@.len())
                },
        decreases count - i,
    {
        let ghost len0 = runs@[0]@[i as int].data@.len();
        let mut data: Vec<T> = Vec::new();
        let mut e: usize = 0;
        while e < runs.len()
            invariant
                combine_accepts(*arr),
                runs == arr.data,
                count == runs@[0]@.len(),
                i < count,
                len0 == runs@[0]@[i as int].data@.len(),
                e <= runs.len(),
                data@ == gathered(runs@, i as int, e as nat),
                data@.len() == e * len0,
            decreases runs.len() - e,
        {
            assert(runs@[e as int]@.len() == count);
            let src = &runs[e][i];
            assert(src.data@.len() == len0);
            proof {
                assert((e + 1) * len0 <= runs@.len() * len0) by (nonlinear_arith)
                    requires
                        e < runs@.len(),
                ;
                assert(e * len0 + len0 == (e + 1) * len0) by (nonlinear_arith);
            }
            let ghost before = data@;
            let mut k: usize = 0;
            while k < src.data.len()
                invariant
                    k <= src.data@.len(),
                    data@ == before + src.data@.take(k as int),
                    before.len() + src.data@.len() <= usize::MAX,
                decreases src.data.len() - k,
            {
                data.push(src.data[k]);
                k = k + 1;
                proof {
                    assert(data@ =~= before + src.data@.take(k as int));
                }
            }
            proof {
                assert(src.data@.take(src.data@.len() as int) =~= src.data@);
            }
            e = e + 1;
        }
        let mut shape: Vec<usize> = arr.shape.clone();
        let inner = &runs[0][i].shape;
        let mut d: usize = 0;
        while d < inner.len()
            invariant
                d <= inner@.len(),
                shape@ == arr.shape@ + inner@.take(d as int),
            decreases inner.len() - d,
        {
            shape.push(inner[d]);
            d = d + 1;
            proof {
                assert(shape@ =~= arr.shape@ + inner@.take(d as int));
            }
        }
        proof {
            assert(inner@.take(inner@.len() as int) =~= inner@);
            lemma_size_append(arr.shape@, inner@);
            assert(runs@[0]@[i as int].wf());
        }
        r.push(Tensor { shape, data });
        i = i + 1;
    }
    r
}

} // verus!
