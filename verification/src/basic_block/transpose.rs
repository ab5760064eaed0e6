//! Transposition of a matrix given as its rows.
use crate::field::{fmul, Fe, fe_mul};
use vstd::prelude::*;

verus! {

/// `alpha` to the power `i`, in the field.
pub open spec fn fpow(alpha: nat, i: nat) -> nat
    decreases i,
{
    if i == 0 {
        1
    } else {
        fmul(fpow(alpha, (i - 1) as nat), alpha)
    }
}

/// The powers `1, alpha, alpha^2, ..., alpha^(n - 1)`.
pub fn calc_pow(alpha: Fe, n: usize) -> (r: Vec<Fe>)
    requires
        n >= 1,
    ensures
        r@.len() == n,
        forall|i: int| 0 <= i < n ==> #[trigger] r@[i]@ == fpow(alpha@, i as nat),
{
    let mut pow: Vec<Fe> = Vec::new();
    pow.push(Fe::one());
    let mut i: usize = 0;
    while i < n - 1
        invariant
            n >= 1,
            i <= n - 1,
            pow@.len() == i + 1,
            forall|k: int| 0 <= k <= i ==> #[trigger] pow@[k]@ == fpow(alpha@, k as nat),
        decreases n - 1 - i,
    {
        let next = fe_mul(&pow[i], &alpha);
        pow.push(next);
        i = i + 1;
    }
    pow
}

/// Transposes a matrix: the inputs are the rows of A, the outputs the rows
/// of its transpose.
pub struct TransposeBasicBlock;

impl TransposeBasicBlock {
    /// The dimensions of the model and inputs this block takes: no model, and
    /// one matrix.
    pub fn get_dims(&self) -> (r: (Vec<usize>, Vec<usize>))
        ensures
            r.0@ == Seq::<usize>::empty(),
            r.1@ == seq![2usize],
    {
        let mut inputs: Vec<usize> = Vec::new();
        inputs.push(2);
        proof {
            assert(inputs@ =~= seq![2usize]);
        }
        (Vec::new(), inputs)
    }

    /// With `n` rows of length `m` (the length of the first row), the `m`
    /// rows of length `n` with `r[j][i] = inputs[i][j]`.
    pub fn run(&self, _model: &Vec<Vec<Fe>>, inputs: &Vec<Vec<Fe>>) -> (r: Vec<Vec<Fe>>)
        requires
            inputs@.len() >= 1,
            forall|i: int| 0 <= i < inputs@.len() ==> (#[trigger] inputs@[i])@.len() >= inputs@[0]@.len(),
        ensures
            is_transpose(inputs@, r@),
    {
        let m = inputs[0].len();
        let n = inputs.len();
        let mut r: Vec<Vec<Fe>> = Vec::new();
        let mut j: usize = 0;
        while j < m
            invariant
                m == inputs@[0]@.len(),
                n == inputs@.len(),
                forall|i: int| 0 <= i < n ==> (#[trigger] inputs@[i])@.len() >= m,
                j <= m,
                r@.len() == j,
                forall|j2: int| 0 <= j2 < j ==> (#[trigger] r@[j2])@.len() == n,
                forall|i: int, j2: int| 0 <= i < n && 0 <= j2 < j ==> #[trigger] r@[j2]@[i] == inputs@[i]@[j2],
            decreases m - j,
        {
            let mut col: Vec<Fe> = Vec::new();
            let mut i: usize = 0;
            while i < n
                invariant
                    m == inputs@[0]@.len(),
                    n == inputs@.len(),
                    forall|i2: int| 0 <= i2 < n ==> (#[trigger] inputs@[i2])@.len() >= m,
                    j < m,
                    i <= n,
                    col@.len() == i,
                    forall|i2: int| 0 <= i2 < i ==> #[trigger] col@[i2] == inputs@[i2]@[j as int],
                decreases n - i,
            {
                assert(inputs@[i as int]@.len() >= m);
                col.push(inputs[i][j]);
                i = i + 1;
            }
            r.push(col);
            j = j + 1;
        }
        r
    }
}

} // verus!

verus! {

/// `r` holds the transpose of the first `m` columns of `a`, where `m` is the
/// length of `a`'s first row: `m` rows of length `a.len()` with
/// `r[j][i] = a[i][j]`.
pub open spec fn is_transpose(a: Seq<Vec<Fe>>, r: Seq<Vec<Fe>>) -> bool {
    &&& r.len() == a[0]@.len()
    &&& forall|j: int| 0 <= j < r.len() ==> (#[trigger] r[j])@.len() == a.len()
    &&& forall|i: int, j: int| 0 <= i < a.len() && 0 <= j < a[0]@.len() ==> #[trigger] r[j]@[i] == a[i]@[j]
}

/// Transposing a non-empty matrix twice gives it back.
pub proof fn transpose_twice(a: Seq<Vec<Fe>>, t: Seq<Vec<Fe>>, b: Seq<Vec<Fe>>)
    requires
        a.len() >= 1,
        a[0]@.len() >= 1,
        forall|i: int| 0 <= i < a.len() ==> (#[trigger] a[i])@.len() == a[0]@.len(),
        is_transpose(a, t),
        is_transpose(t, b),
    ensures
        b.len() == a.len(),
        forall|i: int| 0 <= i < a.len() ==> (#[trigger] b[i])@ == a[i]@,
{
    assert(t[0]@.len() == a.len());
    assert forall|i: int| 0 <= i < a.len() implies (#[trigger] b[i])@ == a[i]@ by {
        assert(b[i]@.len() == t.len());
        assert forall|j: int| 0 <= j < a[i]@.len() implies b[i]@[j] == a[i]@[j] by {
            assert(b[i]@[j] == t[j]@[i]);
        }
        assert(b[i]@ =~= a[i]@);
    }
}

} // verus!
