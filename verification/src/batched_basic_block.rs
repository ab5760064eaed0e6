//! Moving between tensors and the vectors that blocks working on vectors
//! take: the lanes along the last axis of each tensor, all elements in a
//! row, and one vector per tensor.
use crate::tensor::Tensor;
use vstd::prelude::*;

verus! {

/// The vectors a tensor stands for: a vector is itself, and a tensor of more
/// dimensions gives, for each position along its last axis, the elements at
/// that position in row-major order.
pub open spec fn lanes<P>(t: Tensor<P>) -> Seq<Seq<P>> {
    if t.shape@.len() == 1 {
        seq![t.data@]
    } else {
        let last = t.shape@[t.shape@.len() - 1] as int;
        Seq::new(last as nat, |i: int| Seq::new((t.data@.len() as int / last) as nat, |k: int| t.data@[k * last + i]))
    }
}

/// The vectors of the first `n` tensors, one tensor after another.
pub open spec fn all_lanes<P>(ts: Seq<Tensor<P>>, n: nat) -> Seq<Seq<P>>
    decreases n,
{
    if n == 0 {
        Seq::empty()
    } else {
        all_lanes(ts, (n - 1) as nat) + lanes(ts[n - 1])
    }
}

/// The elements of the first `n` tensors, one tensor after another.
pub open spec fn all_elements<P>(ts: Seq<Tensor<P>>, n: nat) -> Seq<P>
    decreases n,
{
    if n == 0 {
        Seq::empty()
    } else {
        all_elements(ts, (n - 1) as nat) + ts[n - 1].data@
    }
}

/// A copy of a vector.
fn copy_vec<P: Copy>(v: &Vec<P>) -> (r: Vec<P>)
    ensures
        r@ == v@,
{
    let mut r: Vec<P> = Vec::new();
    let mut k: usize = 0;
    while k < v.len()
        invariant
            k <= v.len(),
            r@ == v@.take(k as int),
        decreases v.len() - k,
    {
        r.push(v[k]);
        k = k + 1;
        proof {
            assert(r@ =~= v@.take(k as int));
        }
    }
    proof {
        assert(v@.take(v@.len() as int) =~= v@);
    }
    r
}

/// The vectors of each tensor: the tensor itself if it has one dimension,
/// and otherwise its lanes along the last axis.
pub fn arr_to_vec<P: Copy>(a: &Vec<Tensor<P>>) -> (r: Vec<Vec<P>>)
    requires
        forall|k: int| 0 <= k < a@.len() ==> (#[trigger] a@[k]).wf() && a@[k].shape@.len() >= 1,
    ensures
        r@.len() == all_lanes(a@, a@.len()).len(),
        forall|k: int| 0 <= k < r@.len() ==> (#[trigger] r@[k])@ == all_lanes(a@, a@.len())[k],
{
    let mut r: Vec<Vec<P>> = Vec::new();
    let mut t: usize = 0;
    while t < a.len()
        invariant
            t <= a.len(),
            forall|k: int| 0 <= k < a@.len() ==> (#[trigger] a@[k]).wf() && a@[k].shape@.len() >= 1,
            r@.len() == all_lanes(a@, t as nat).len(),
            forall|k: int| 0 <= k < r@.len() ==> (#[trigger] r@[k])@ == all_lanes(a@, t as nat)[k],
        decreases a.len() - t,
    {
        let x = &a[t];
        let ghost before = all_lanes(a@, t as nat);
        assert(all_lanes(a@, (t + 1) as nat) == before + lanes(*x));
        if x.shape.len() == 1 {
            r.push(copy_vec(&x.data));
            proof {
                assert(lanes(*x) == seq![x.data@]);
            }
        } else {
            let last = x.shape[x.shape.len() - 1];
            let len = x.data.len();
            let rows = if last == 0 {
                0
            } else {
                len / last
            };
            let mut i: usize = 0;
            while i < last
                invariant
                    x == a@[t as int],
                    x.shape@.len() > 1,
                    last == x.shape@[x.shape@.len() - 1],
                    len == x.data@.len(),
                    last > 0 ==> rows == len / last,
                    i <= last,
                    r@.len() == before.len() + i,
                    forall|k: int| 0 <= k < r@.len() ==> (#[trigger] r@[k])@ == (before + lanes(*x))[k],
                decreases last - i,
            {
                proof {
                    assert(rows * last <= len) by (nonlinear_arith)
                        requires
                            last > 0,
                            rows == len / last,
                    ;
                }
                let mut lane: Vec<P> = Vec::new();
                let mut k: usize = 0;
                while k < rows
                    invariant
                        x == a@[t as int],
                        last == x.shape@[x.shape@.len() - 1],
                        len == x.data@.len(),
                        i < last,
                        rows * last <= len,
                        k <= rows,
                        lane@ == Seq::new(k as nat, |m: int| x.data@[m * last + i]),
                    decreases rows - k,
                {
                    proof {
                        assert(k * last + i < rows * last) by (nonlinear_arith)
                            requires
                                k < rows,
                                i < last,
                        ;
                    }
                    lane.push(x.data[k * last + i]);
                    k = k + 1;
                    proof {
                        assert(lane@ =~= Seq::new(k as nat, |m: int| x.data@[m * last + i]));
                    }
                }
                proof {
                    assert(lane@ =~= lanes(*x)[i as int]);
                }
                r.push(lane);
                i = i + 1;
            }
        }
        t = t + 1;
    }
    r
}

/// All elements of the tensors, one tensor after another.
pub fn arr_flatten<P: Copy>(a: &Vec<Tensor<P>>) -> (r: Vec<P>)
    ensures
        r@ == all_elements(a@, a@.len()),
{
    let mut r: Vec<P> = Vec::new();
    let mut t: usize = 0;
    while t < a.len()
        invariant
            t <= a.len(),
            r@ == all_elements(a@, t as nat),
        decreases a.len() - t,
    {
        let x = &a[t];
        let ghost before = r@;
        let mut k: usize = 0;
        while k < x.data.len()
            invariant
                x == a@[t as int],
                k <= x.data@.len(),
                r@ == before + x.data@.take(k as int),
            decreases x.data.len() - k,
        {
            r.push(x.data[k]);
            k = k + 1;
            proof {
                assert(r@ =~= before + x.data@.take(k as int));
            }
        }
        proof {
            assert(x.data@.take(x.data@.len() as int) =~= x.data@);
        }
        t = t + 1;
    }
    r
}

/// One vector tensor per vector.
pub fn vec_to_arr<P: Copy>(a: Vec<Vec<P>>) -> (r: Vec<Tensor<P>>)
    ensures
        r@.len() == a@.len(),
        forall|k: int|
            0 <= k < r@.len() ==> (#[trigger] r@[k]).wf() && r@[k].shape@ == seq![a@[k]@.len() as usize] && r@[k].data@
                == a@[k]@,
{
    let mut r: Vec<Tensor<P>> = Vec::new();
    let mut k: usize = 0;
    while k < a.len()
        invariant
            k <= a.len(),
            r@.len() == k,
            forall|m: int|
                0 <= m < k ==> (#[trigger] r@[m]).wf() && r@[m].shape@ == seq![a@[m]@.len() as usize] && r@[m].data@
                    == a@[m]@,
        decreases a.len() - k,
    {
        let v = copy_vec(&a[k]);
        let mut shape: Vec<usize> = Vec::new();
        shape.push(v.len());
        proof {
            crate::tensor::lemma_single_size(v@.len() as usize);
            assert(shape@ =~= seq![v@.len() as usize]);
        }
        r.push(Tensor { shape, data: v });
        k = k + 1;
    }
    r
}

} // verus!
