//! The product of two matrices, each first padded with zeros to dimensions
//! that are powers of two.
use super::matmul::{dot, dot_exec};
use crate::field::{fe_of, lemma_fe_of, Fe};
use crate::tensor::{next_pow_spec, pad_to_pow_of_two, pow2_shape, resized, shape_size, suffix_sizes_fit, Tensor};
use vstd::prelude::*;

verus! {

/// `A * B` for an `M x N` matrix `A` and an `N x K` matrix `B`, after padding.
#[derive(Debug)]
pub struct MatMultBasicBlock;

/// A matrix of shape `[r, c]` holds `r * c` elements.
proof fn lemma_matrix_size(s: Seq<usize>)
    requires
        s.len() == 2,
    ensures
        shape_size(s) == s[0] * s[1],
{
    assert(s.drop_first() =~= seq![s[1]]);
    crate::tensor::lemma_single_size(s[1]);
}

/// A matrix padded with zeros to dimensions that are powers of two.
pub open spec fn padded(t: Tensor<Fe>) -> Seq<Fe> {
    resized(t.data@, t.shape@, pow2_shape(t.shape@), fe_of(0))
}

/// A matrix whose padding is defined and fits in a `usize`.
pub open spec fn pads(t: Tensor<Fe>) -> bool {
    &&& t.wf()
    &&& t.ndim() == 2
    &&& suffix_sizes_fit(t.shape@)
    &&& forall|k: int| 0 <= k < 2 ==> next_pow_spec(#[trigger] t.shape@[k] as nat) <= usize::MAX
    &&& suffix_sizes_fit(pow2_shape(t.shape@))
}

/// The inputs the product accepts: two matrices that can be padded, the
/// second with at least as many rows, after padding, as the first has
/// columns, and a product whose size fits in a `usize`.
pub open spec fn matmult_accepts(inputs: Seq<Tensor<Fe>>) -> bool {
    &&& inputs.len() >= 2
    &&& pads(inputs[0])
    &&& pads(inputs[1])
    &&& next_pow_spec(inputs[1].shape@[0] as nat) >= next_pow_spec(inputs[0].shape@[1] as nat)
    &&& next_pow_spec(inputs[0].shape@[0] as nat) * next_pow_spec(inputs[1].shape@[1] as nat) <= usize::MAX
}

impl MatMultBasicBlock {
    pub fn run(_model: &Vec<Tensor<Fe>>, inputs: &Vec<Tensor<Fe>>) -> (r: Vec<Tensor<Fe>>)
        requires
            matmult_accepts(inputs@),
        ensures
            ({
                let a = inputs@[0];
                let b = inputs@[1];
                let m = next_pow_spec(a.shape@[0] as nat) as int;
                let n = next_pow_spec(a.shape@[1] as nat) as int;
                let k = next_pow_spec(b.shape@[1] as nat) as int;
                &&& r@.len() == 1
                &&& r@[0].wf()
                &&& r@[0].shape@ == seq![m as usize, k as usize]
                &&& forall|i: int, j: int|
                    0 <= i < m && 0 <= j < k ==> #[trigger] r@[0].data@[i * k + j]@ == dot(
                        padded(a),
                        i * n,
                        padded(b),
                        j,
                        k,
                        n as nat,
                    )
            }),
    {
        let zero = Fe::zero();
        proof {
            lemma_fe_of(zero);
        }
        let a = pad_to_pow_of_two(&inputs[0], zero);
        let b = pad_to_pow_of_two(&inputs[1], zero);
        let m = a.shape[0];
        let n = a.shape[1];
        let k = b.shape[1];
        proof {
            lemma_matrix_size(a.shape@);
            lemma_matrix_size(b.shape@);
        }
        let mut data: Vec<Fe> = Vec::new();
        let mut i: usize = 0;
        while i < m
            invariant
                a.wf(),
                b.wf(),
                a.shape@.len() == 2,
                b.shape@.len() == 2,
                m == a.shape@[0],
                n == a.shape@[1],
                k == b.shape@[1],
                b.shape@[0] >= n,
                m * k <= usize::MAX,
                a.data@.len() == m * n,
                b.data@.len() == b.shape@[0] * k,
                i <= m,
                data@.len() == i * k,
                forall|i2: int, j2: int|
                    0 <= i2 < i && 0 <= j2 < k ==> #[trigger] data@[i2 * k + j2]@ == dot(a.data@, i2 * n, b.data@, j2, k as int, n as nat),
            decreases m - i,
        {
            let mut j: usize = 0;
            while j < k
                invariant
                    a.wf(),
                    b.wf(),
                    m == a.shape@[0],
                    n == a.shape@[1],
                    k == b.shape@[1],
                    b.shape@[0] >= n,
                    m * k <= usize::MAX,
                    a.data@.len() == m * n,
                    b.data@.len() == b.shape@[0] * k,
                    i < m,
                    j <= k,
                    data@.len() == i * k + j,
                    forall|i2: int, j2: int|
                        0 <= i2 < i && 0 <= j2 < k ==> #[trigger] data@[i2 * k + j2]@ == dot(a.data@, i2 * n, b.data@, j2, k as int, n as nat),
                    forall|j2: int| 0 <= j2 < j ==> #[trigger] data@[i * k + j2]@ == dot(a.data@, i * n, b.data@, j2, k as int, n as nat),
                decreases k - j,
            {
                proof {
                    assert(i * n + n <= m * n) by (nonlinear_arith)
                        requires
                            i < m,
                    ;
                    assert(n > 0 ==> j + (n - 1) * k < b.shape@[0] * k) by (nonlinear_arith)
                        requires
                            j < k,
                            b.shape@[0] >= n,
                    ;
                    assert(i * k + j < m * k) by (nonlinear_arith)
                        requires
                            i < m,
                            j < k,
                    ;
                }
                let v = dot_exec(&a.data, i * n, &b.data, j, k, n);
                let ghost before = data@;
                data.push(v);
                proof {
                    assert forall|i2: int, j2: int|
                        0 <= i2 < i && 0 <= j2 < k implies #[trigger] data@[i2 * k + j2]@ == dot(
                        a.data@,
                        i2 * n,
                        b.data@,
                        j2,
                        k as int,
                        n as nat,
                    ) by {
                        assert(i2 * k + j2 < i * k) by (nonlinear_arith)
                            requires
                                i2 < i,
                                j2 < k,
                        ;
                        assert(data@[i2 * k + j2] == before[i2 * k + j2]);
                    }
                }
                j = j + 1;
            }
            proof {
                assert(i * k + k == (i + 1) * k) by (nonlinear_arith);
            }
            i = i + 1;
        }
        let mut shape: Vec<usize> = Vec::new();
        shape.push(m);
        shape.push(k);
        proof {
            lemma_matrix_size(shape@);
        }
        let mut r: Vec<Tensor<Fe>> = Vec::new();
        r.push(Tensor { shape, data });
        r
    }
}

} // verus!
