//! The witness of a linear layer proven with a lookup argument: the input
//! vector, or each row of the input, times the model matrix.
use super::matmul::{dot, dot_exec};
use super::{vec_tensor, CQOutOfRangeError};
use crate::field::Fe;
use crate::tensor::{lemma_single_size, shape_size, Tensor};
use vstd::prelude::*;

verus! {

/// A linear layer whose model is the matrix `setup`.
#[derive(Debug)]
pub struct CQLinBasicBlock {
    pub setup: Tensor<Fe>,
}

/// A matrix of shape `[r, c]` holds `r * c` elements.
proof fn lemma_matrix_size(s: Seq<usize>)
    requires
        s.len() == 2,
    ensures
        shape_size(s) == s[0] * s[1],
{
    assert(s.drop_first() =~= seq![s[1]]);
    lemma_single_size(s[1]);
}

/// The inputs the layer accepts: a model matrix of `k` rows, and a vector of
/// length `k` or a matrix with rows of length `k`.
pub open spec fn cqlin_accepts(model: Tensor<Fe>, inputs: Seq<Tensor<Fe>>) -> bool {
    &&& model.wf() && model.ndim() == 2
    &&& inputs.len() == 1
    &&& inputs[0].wf()
    &&& (inputs[0].ndim() == 1 && inputs[0].shape@[0] == model.shape@[0]) || (inputs[0].ndim() == 2
        && inputs[0].shape@[1] == model.shape@[0])
    &&& inputs[0].ndim() == 2 ==> inputs[0].shape@[0] * model.shape@[1] <= usize::MAX
}

impl CQLinBasicBlock {
    /// The model of this block.
    #[allow(non_snake_case)]
    pub fn genModel(&self) -> (r: Tensor<Fe>)
        ensures
            r.shape@ == self.setup.shape@,
            r.data@ == self.setup.data@,
    {
        super::copy_tensor(&self.setup)
    }

    /// `out[j] = sum_t x[t] model[t][j]`, or `out[i][j] = sum_t x[i][t] model[t][j]`.
    pub fn run(&self, model: &Tensor<Fe>, inputs: &Vec<Tensor<Fe>>) -> (r: Result<Vec<Tensor<Fe>>, CQOutOfRangeError>)
        requires
            cqlin_accepts(*model, inputs@),
        ensures
            r matches Ok(out) && out@.len() == 1 && out@[0].wf() && {
                let x = inputs@[0];
                let k = model.shape@[0] as int;
                let n = model.shape@[1] as int;
                if x.ndim() == 1 {
                    &&& out@[0].shape@ == seq![n as usize]
                    &&& forall|j: int|
                        0 <= j < n ==> #[trigger] out@[0].data@[j]@ == dot(x.data@, 0, model.data@, j, n, k as nat)
                } else {
                    let l = x.shape@[0] as int;
                    &&& out@[0].shape@ == seq![l as usize, n as usize]
                    &&& forall|i: int, j: int|
                        0 <= i < l && 0 <= j < n ==> #[trigger] out@[0].data@[i * n + j]@ == dot(
                            x.data@,
                            i * k,
                            model.data@,
                            j,
                            n,
                            k as nat,
                        )
                }
            },
    {
        let x = &inputs[0];
        let k = model.shape[0];
        let n = model.shape[1];
        proof {
            lemma_matrix_size(model.shape@);
        }
        let l: usize = if x.shape.len() == 1 {
            1
        } else {
            x.shape[0]
        };
        proof {
            if x.shape@.len() == 1 {
                lemma_single_size(x.shape@[0]);
                assert(x.shape@ =~= seq![x.shape@[0]]);
            } else {
                lemma_matrix_size(x.shape@);
            }
            assert(l * n <= usize::MAX) by (nonlinear_arith)
                requires
                    x.shape@.len() == 1 ==> l == 1 && n <= usize::MAX,
                    x.shape@.len() == 2 ==> l * n <= usize::MAX,
                    x.shape@.len() == 1 || x.shape@.len() == 2,
            ;
        }
        let xlen = x.data.len();
        let mlen = model.data.len();
        let mut data: Vec<Fe> = Vec::new();
        let mut i: usize = 0;
        while i < l
            invariant
                x.data@.len() == l * k,
                model.data@.len() == k * n,
                xlen == x.data@.len(),
                mlen == model.data@.len(),
                l * n <= usize::MAX,
                i <= l,
                data@.len() == i * n,
                forall|i2: int, j2: int|
                    0 <= i2 < i && 0 <= j2 < n ==> #[trigger] data@[i2 * n + j2]@ == dot(
                        x.data@,
                        i2 * k,
                        model.data@,
                        j2,
                        n as int,
                        k as nat,
                    ),
            decreases l - i,
        {
            let mut j: usize = 0;
            while j < n
                invariant
                    x.data@.len() == l * k,
                    model.data@.len() == k * n,
                    xlen == x.data@.len(),
                    mlen == model.data@.len(),
                    l * n <= usize::MAX,
                    i < l,
                    j <= n,
                    data@.len() == i * n + j,
                    forall|i2: int, j2: int|
                        0 <= i2 < i && 0 <= j2 < n ==> #[trigger] data@[i2 * n + j2]@ == dot(
                            x.data@,
                            i2 * k,
                            model.data@,
                            j2,
                            n as int,
                            k as nat,
                        ),
                    forall|j2: int|
                        0 <= j2 < j ==> #[trigger] data@[i * n + j2]@ == dot(
                            x.data@,
                            i * k,
                            model.data@,
                            j2,
                            n as int,
                            k as nat,
                        ),
                decreases n - j,
            {
                proof {
                    assert(i * k + k <= l * k) by (nonlinear_arith)
                        requires
                            i < l,
                    ;
                    assert(k > 0 ==> j + (k - 1) * n < k * n) by (nonlinear_arith)
                        requires
                            j < n,
                    ;
                    assert(i * n + j < l * n) by (nonlinear_arith)
                        requires
                            i < l,
                            j < n,
                    ;
                }
                data.push(dot_exec(&x.data, i * k, &model.data, j, n, k));
                proof {
                    assert forall|i2: int, j2: int|
                        0 <= i2 < i && 0 <= j2 < n implies #[trigger] data@[i2 * n + j2]@ == dot(
                            x.data@,
                            i2 * k,
                            model.data@,
                            j2,
                            n as int,
                            k as nat,
                        ) by {
                        assert(i2 * n + j2 < i * n) by (nonlinear_arith)
                            requires
                                i2 < i,
                                j2 < n,
                        ;
                    }
                }
                j = j + 1;
            }
            proof {
                assert((i + 1) * n == i * n + n) by (nonlinear_arith);
            }
            i = i + 1;
        }
        let mut out: Vec<Tensor<Fe>> = Vec::new();
        if x.shape.len() == 1 {
            proof {
                assert forall|j: int| 0 <= j < n implies #[trigger] data@[j]@ == dot(
                    x.data@,
                    0,
                    model.data@,
                    j,
                    n as int,
                    k as nat,
                ) by {
                    assert(data@[0 * n + j] == data@[j]);
                }
            }
            out.push(vec_tensor(data));
        } else {
            let mut shape: Vec<usize> = Vec::new();
            shape.push(l);
            shape.push(n);
            proof {
                assert(shape@ =~= seq![l, n]);
                lemma_matrix_size(shape@);
            }
            out.push(Tensor { shape, data });
        }
        Ok(out)
    }
}

} // verus!
