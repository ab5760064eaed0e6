//! The interleaving relation between three vectors, proven by comparing
//! sums weighted by powers of random challenges.
use super::transpose::fpow;
use crate::field::{Fe, fe_mul};
use vstd::prelude::*;

verus! {

/// X alternating with Y equals Z.
pub struct AlternatingBasicBlock;

/// The powers `alpha, alpha^2, ..., alpha^n`.
pub fn calc_pow(alpha: Fe, n: usize) -> (r: Vec<Fe>)
    requires
        n >= 1,
    ensures
        r@.len() == n,
        forall|i: int| 0 <= i < n ==> #[trigger] r@[i]@ == fpow(alpha@, (i + 1) as nat),
{
    let mut pow: Vec<Fe> = Vec::new();
    proof {
        use_type_invariant(&alpha);
        alpha.lemma_canonical();
        assert(fpow(alpha@, 0) == 1);
        assert(fpow(alpha@, 1) == crate::field::fmul(1, alpha@));
        assert(crate::field::fmul(1, alpha@) == alpha@ % crate::field::modulus());
        vstd::arithmetic::div_mod::lemma_small_mod(alpha@, crate::field::modulus());
    }
    pow.push(alpha);
    let mut i: usize = 0;
    while i < n - 1
        invariant
            n >= 1,
            i <= n - 1,
            pow@.len() == i + 1,
            forall|k: int| 0 <= k <= i ==> #[trigger] pow@[k]@ == fpow(alpha@, (k + 1) as nat),
        decreases n - 1 - i,
    {
        let next = fe_mul(&pow[i], &alpha);
        pow.push(next);
        i = i + 1;
    }
    pow
}

impl AlternatingBasicBlock {
    /// The dimensions of the model and inputs this block takes: no model, and
    /// three vectors.
    pub fn get_dims(&self) -> (r: (Vec<usize>, Vec<usize>))
        ensures
            r.0@ == Seq::<usize>::empty(),
            r.1@ == seq![1usize, 1usize, 1usize],
    {
        let mut inputs: Vec<usize> = Vec::new();
        inputs.push(1);
        inputs.push(1);
        inputs.push(1);
        proof {
            assert(inputs@ =~= seq![1usize, 1usize, 1usize]);
        }
        (Vec::new(), inputs)
    }
}

} // verus!
