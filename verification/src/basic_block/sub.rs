//! Subtraction of two vectors, where a single-element vector stands for
//! every position.
use crate::field::{fadd, fsub, modulus, Fe, fe_sub};
use vstd::arithmetic::div_mod::lemma_add_mod_noop_right;
use vstd::prelude::*;

verus! {

/// Subtracts the second vector from the first.
pub struct SubBasicBlock;

/// The difference at position `i`: past the end of a shorter vector, its
/// first element is used.
pub open spec fn sub_at(a: Seq<Fe>, b: Seq<Fe>, i: int) -> nat {
    if a.len() <= i {
        fsub(a[0]@, b[i]@)
    } else if b.len() <= i {
        fsub(a[i]@, b[0]@)
    } else {
        fsub(a[i]@, b[i]@)
    }
}

/// The element a vector contributes at position `i`: its own, or its first
/// where it is shorter (a single-element vector stands for every position).
pub open spec fn bcast(s: Seq<Fe>, i: int) -> Fe {
    if s.len() <= i {
        s[0]
    } else {
        s[i]
    }
}

/// Adding back what was subtracted gives the first value.
proof fn lemma_sub_then_add(x: nat, y: nat)
    ensures
        fadd(fsub(x, y), y) == x % modulus(),
{
    let p = modulus() as int;
    lemma_add_mod_noop_right(y as int, x - y, p);
    assert(fsub(x, y) == (x - y) % p);
}

/// Subtraction is undone by addition: wherever the block's result `r` has
/// an element, adding the second input's element there gives back the
/// first input's (a single-element input standing for every position).
/// In particular, when the first input has one element, `r[i] + b[i] ==
/// a[0]`.
pub proof fn law_sub_undone_by_add(a: Seq<Fe>, b: Seq<Fe>, r: Seq<Fe>)
    requires
        r.len() == max_len(a.len(), b.len()),
        forall|i: int| 0 <= i < r.len() ==> #[trigger] r[i]@ == sub_at(a, b, i),
    ensures
        forall|i: int| 0 <= i < r.len() ==> fadd(#[trigger] r[i]@, bcast(b, i)@) == bcast(a, i)@ % modulus(),
{
    assert forall|i: int| 0 <= i < r.len() implies fadd(#[trigger] r[i]@, bcast(b, i)@) == bcast(a, i)@ % modulus() by {
        lemma_sub_then_add(bcast(a, i)@, bcast(b, i)@);
    }
}

/// The larger of two lengths.
pub open spec fn max_len(a: nat, b: nat) -> nat {
    if a >= b {
        a
    } else {
        b
    }
}

impl SubBasicBlock {
    /// The dimensions of the model and inputs this block takes: no model, and
    /// two vectors.
    pub fn get_dims(&self) -> (r: (Vec<usize>, Vec<usize>))
        ensures
            r.0@ == Seq::<usize>::empty(),
            r.1@ == seq![1usize, 1usize],
    {
        let mut inputs: Vec<usize> = Vec::new();
        inputs.push(1);
        inputs.push(1);
        proof {
            assert(inputs@ =~= seq![1usize, 1usize]);
        }
        (Vec::new(), inputs)
    }

    pub fn run(&self, _model: &Vec<Vec<Fe>>, inputs: &Vec<Vec<Fe>>) -> (r: Vec<Vec<Fe>>)
        requires
            inputs@.len() == 2,
            max_len(inputs@[0]@.len(), inputs@[1]@.len()) > 0 ==> inputs@[0]@.len() >= 1
                && inputs@[1]@.len() >= 1,
        ensures
            r@.len() == 1,
            r@[0]@.len() == max_len(inputs@[0]@.len(), inputs@[1]@.len()),
            forall|i: int|
                0 <= i < r@[0]@.len() ==> #[trigger] r@[0]@[i]@ == sub_at(inputs@[0]@, inputs@[1]@, i),
            forall|i: int|
                0 <= i < r@[0]@.len() ==> fadd(#[trigger] r@[0]@[i]@, bcast(inputs@[1]@, i)@) == bcast(inputs@[0]@, i)@
                    % modulus(),
    {
        let a = &inputs[0];
        let b = &inputs[1];
        let m = if a.len() >= b.len() {
            a.len()
        } else {
            b.len()
        };
        let mut r: Vec<Fe> = Vec::new();
        let mut i: usize = 0;
        while i < m
            invariant
                a@ == inputs@[0]@,
                b@ == inputs@[1]@,
                m == max_len(a@.len(), b@.len()),
                m > 0 ==> a@.len() >= 1 && b@.len() >= 1,
                i <= m,
                r@.len() == i,
                forall|k: int| 0 <= k < i ==> #[trigger] r@[k]@ == sub_at(a@, b@, k),
            decreases m - i,
        {
            if a.len() <= i {
                r.push(fe_sub(&a[0], &b[i]));
            } else if b.len() <= i {
                r.push(fe_sub(&a[i], &b[0]));
            } else {
                r.push(fe_sub(&a[i], &b[i]));
            }
            i = i + 1;
        }
        proof {
            law_sub_undone_by_add(a@, b@, r@);
        }
        let mut out: Vec<Vec<Fe>> = Vec::new();
        out.push(r);
        out
    }
}

} // verus!
