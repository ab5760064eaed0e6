//! Interleaving two vectors, and splitting a vector into its even and odd
//! positions.
use crate::field::Fe;
use vstd::prelude::*;

verus! {

/// Interleaves A and B into C: `C[2i] = A[i]`, `C[2i + 1] = B[i]`.
pub struct AlternateBasicBlock;

/// Splits C into its even positions A and its odd positions B.
pub struct SplitBasicBlock;

/// The elements of `a` and `b` taken in turn, for the first `n` of each.
pub open spec fn interleaved(a: Seq<Fe>, b: Seq<Fe>, n: nat) -> Seq<Fe> {
    Seq::new(2 * n, |k: int| if k % 2 == 0 {
        a[k / 2]
    } else {
        b[k / 2]
    })
}

/// The elements of `c` at even positions.
pub open spec fn evens(c: Seq<Fe>) -> Seq<Fe> {
    Seq::new((c.len() + 1) / 2, |i: int| c[2 * i])
}

/// The elements of `c` at odd positions.
pub open spec fn odds(c: Seq<Fe>) -> Seq<Fe> {
    Seq::new(c.len() / 2, |i: int| c[2 * i + 1])
}

impl AlternateBasicBlock {
    pub fn run(&self, _model: &Vec<Vec<Fe>>, inputs: &Vec<Vec<Fe>>) -> (r: Vec<Vec<Fe>>)
        requires
            inputs@.len() >= 2,
            inputs@[1]@.len() >= inputs@[0]@.len(),
        ensures
            r@.len() == 1,
            r@[0]@ == interleaved(inputs@[0]@, inputs@[1]@, inputs@[0]@.len()),
    {
        let a = &inputs[0];
        let b = &inputs[1];
        let n = a.len();
        let mut c: Vec<Fe> = Vec::new();
        let mut i: usize = 0;
        while i < n
            invariant
                a@ == inputs@[0]@,
                b@ == inputs@[1]@,
                n == a@.len(),
                b@.len() >= n,
                i <= n,
                c@ == interleaved(a@, b@, i as nat),
            decreases n - i,
        {
            c.push(a[i]);
            c.push(b[i]);
            i = i + 1;
            proof {
                assert(c@ =~= interleaved(a@, b@, i as nat));
            }
        }
        let mut out: Vec<Vec<Fe>> = Vec::new();
        out.push(c);
        out
    }
}

impl SplitBasicBlock {
    pub fn run(&self, _model: &Vec<Vec<Fe>>, inputs: &Vec<Vec<Fe>>) -> (r: Vec<Vec<Fe>>)
        requires
            inputs@.len() >= 1,
        ensures
            r@.len() == 2,
            r@[0]@ == evens(inputs@[0]@),
            r@[1]@ == odds(inputs@[0]@),
    {
        let c = &inputs[0];
        let n2 = c.len();
        let mut a: Vec<Fe> = Vec::new();
        let mut b: Vec<Fe> = Vec::new();
        let mut i: usize = 0;
        while i < n2
            invariant
                c@ == inputs@[0]@,
                n2 == c@.len(),
                i <= n2,
                a@ == evens(c@.subrange(0, i as int)),
                b@ == odds(c@.subrange(0, i as int)),
            decreases n2 - i,
        {
            if i % 2 == 0 {
                a.push(c[i]);
            } else {
                b.push(c[i]);
            }
            i = i + 1;
            proof {
                assert(a@ =~= evens(c@.subrange(0, i as int)));
                assert(b@ =~= odds(c@.subrange(0, i as int)));
            }
        }
        proof {
            assert(c@.subrange(0, n2 as int) =~= c@);
        }
        let mut out: Vec<Vec<Fe>> = Vec::new();
        out.push(a);
        out.push(b);
        out
    }
}

} // verus!

verus! {

/// Splitting the interleaving of `a` and `b` gives back `a`, and the first
/// `a.len()` elements of `b`.
pub proof fn split_undoes_alternate(a: Seq<Fe>, b: Seq<Fe>)
    requires
        b.len() >= a.len(),
    ensures
        evens(interleaved(a, b, a.len())) == a,
        odds(interleaved(a, b, a.len())) == b.take(a.len() as int),
{
    let c = interleaved(a, b, a.len());
    assert forall|i: int| 0 <= i < a.len() implies #[trigger] evens(c)[i] == a[i] by {
        assert((2 * i) % 2 == 0 && (2 * i) / 2 == i);
    }
    assert forall|i: int| 0 <= i < a.len() implies #[trigger] odds(c)[i] == b[i] by {
        assert((2 * i + 1) % 2 == 1 && (2 * i + 1) / 2 == i);
    }
    assert(evens(c) =~= a);
    assert(odds(c) =~= b.take(a.len() as int));
}

/// Interleaving the even and odd positions of a sequence of even length
/// gives it back.
pub proof fn alternate_undoes_split(c: Seq<Fe>)
    requires
        c.len() % 2 == 0,
    ensures
        interleaved(evens(c), odds(c), evens(c).len()) == c,
{
    let r = interleaved(evens(c), odds(c), evens(c).len());
    assert forall|k: int| 0 <= k < c.len() implies #[trigger] r[k] == c[k] by {
        if k % 2 == 0 {
            assert(2 * (k / 2) == k);
        } else {
            assert(2 * (k / 2) + 1 == k);
        }
    }
    assert(r =~= c);
}

} // verus!
