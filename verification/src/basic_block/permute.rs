//! Permuting the elements of a matrix into another matrix.
use crate::field::Fe;
use crate::tensor::{lemma_single_size, shape_size, Tensor};
use vstd::prelude::*;

verus! {

/// Output element `(i, j)` is the input element at column-major position
/// `permutation.0[i] + permutation.1[j]`. A transpose of an `n`-row matrix
/// uses `permutation.0[i] = n i` and `permutation.1[j] = j`.
#[derive(Debug)]
pub struct PermuteBasicBlock {
    pub permutation: (Vec<usize>, Vec<usize>),
}

/// A matrix of shape `[r, c]` holds `r * c` elements.
proof fn lemma_matrix_size(s: Seq<usize>)
    requires
        s.len() == 2,
    ensures
        shape_size(s) == s[0] * s[1],
{
    assert(s.drop_first() =~= seq![s[1]]);
    lemma_single_size(s[1]);
}

/// The inputs a permutation accepts: one matrix with at least one row, and
/// positions that lie inside it.
pub open spec fn permute_accepts(p0: Seq<usize>, p1: Seq<usize>, inputs: Seq<Tensor<Fe>>) -> bool {
    &&& inputs.len() == 1
    &&& inputs[0].wf()
    &&& inputs[0].ndim() == 2
    &&& inputs[0].shape@[0] > 0
    &&& p0.len() * p1.len() <= usize::MAX
    &&& forall|i: int, j: int|
        0 <= i < p0.len() && 0 <= j < p1.len() ==> #[trigger] p0[i] + #[trigger] p1[j] < inputs[0].data@.len()
}

/// The input element at column-major position `s` of a matrix with `n` rows
/// and `c` columns.
pub open spec fn column_major(data: Seq<Fe>, n: int, c: int, s: int) -> Fe {
    data[(s % n) * c + s / n]
}

impl PermuteBasicBlock {
    pub fn run(&self, _model: &Tensor<Fe>, inputs: &Vec<Tensor<Fe>>) -> (r: Vec<Tensor<Fe>>)
        requires
            permute_accepts(self.permutation.0@, self.permutation.1@, inputs@),
        ensures
            r@.len() == 1,
            r@[0].wf(),
            r@[0].shape@ == seq![self.permutation.0@.len() as usize, self.permutation.1@.len() as usize],
            forall|i: int, j: int|
                0 <= i < self.permutation.0@.len() && 0 <= j < self.permutation.1@.len() ==> #[trigger] r@[0].data@[i
                    * self.permutation.1@.len() + j] == column_major(
                    inputs@[0].data@,
                    inputs@[0].shape@[0] as int,
                    inputs@[0].shape@[1] as int,
                    self.permutation.0@[i] + self.permutation.1@[j],
                ),
    {
        let t = &inputs[0];
        let n = t.shape[0];
        let c = t.shape[1];
        let p0 = &self.permutation.0;
        let p1 = &self.permutation.1;
        let rows = p0.len();
        let cols = p1.len();
        let dlen = t.data.len();
        proof {
            lemma_matrix_size(t.shape@);
        }
        let mut data: Vec<Fe> = Vec::new();
        let mut i: usize = 0;
        while i < rows
            invariant
                permute_accepts(p0@, p1@, inputs@),
                t == inputs@[0],
                n == t.shape@[0],
                c == t.shape@[1],
                dlen == t.data@.len(),
                dlen == n * c,
                rows == p0@.len(),
                cols == p1@.len(),
                i <= rows,
                data@.len() == i * cols,
                forall|i2: int, j2: int|
                    0 <= i2 < i && 0 <= j2 < cols ==> #[trigger] data@[i2 * cols + j2] == column_major(
                        t.data@,
                        n as int,
                        c as int,
                        p0@[i2] + p1@[j2],
                    ),
            decreases rows - i,
        {
            let mut j: usize = 0;
            while j < cols
                invariant
                    permute_accepts(p0@, p1@, inputs@),
                    t == inputs@[0],
                    n == t.shape@[0],
                    c == t.shape@[1],
                    dlen == t.data@.len(),
                    dlen == n * c,
                    rows == p0@.len(),
                    cols == p1@.len(),
                    i < rows,
                    j <= cols,
                    data@.len() == i * cols + j,
                    forall|i2: int, j2: int|
                        0 <= i2 < i && 0 <= j2 < cols ==> #[trigger] data@[i2 * cols + j2] == column_major(
                            t.data@,
                            n as int,
                            c as int,
                            p0@[i2] + p1@[j2],
                        ),
                    forall|j2: int|
                        0 <= j2 < j ==> #[trigger] data@[i * cols + j2] == column_major(
                            t.data@,
                            n as int,
                            c as int,
                            p0@[i as int] + p1@[j2],
                        ),
                decreases cols - j,
            {
                assert(p0@[i as int] + p1@[j as int] < dlen);
                let s = p0[i] + p1[j];
                proof {
                    assert((s % n) * c + s / n < n * c) by (nonlinear_arith)
                        requires
                            s < n * c,
                            n > 0,
                    ;
                    assert((s % n) * c <= (s % n) * c + s / n);
                    assert(i * cols + j < rows * cols) by (nonlinear_arith)
                        requires
                            i < rows,
                            j < cols,
                    ;
                }
                data.push(t.data[(s % n) * c + s / n]);
                proof {
                    assert forall|i2: int, j2: int|
                        0 <= i2 < i && 0 <= j2 < cols implies #[trigger] data@[i2 * cols + j2]
                            == column_major(t.data@, n as int, c as int, p0@[i2] + p1@[j2]) by {
                        assert(i2 * cols + j2 < i * cols) by (nonlinear_arith)
                            requires
                                i2 < i,
                                j2 < cols,
                        ;
                    }
                }
                j = j + 1;
            }
            proof {
                assert((i + 1) * cols == i * cols + cols) by (nonlinear_arith);
            }
            i = i + 1;
        }
        let mut shape: Vec<usize> = Vec::new();
        shape.push(rows);
        shape.push(cols);
        proof {
            assert(shape@ =~= seq![rows, cols]);
            lemma_matrix_size(shape@);
        }
        let mut out: Vec<Tensor<Fe>> = Vec::new();
        out.push(Tensor { shape, data });
        out
    }
}

} // verus!
