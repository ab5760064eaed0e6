//! Decomposing field elements into their bits.
use crate::field::Fe;
use vstd::prelude::*;

verus! {

/// Decomposes every element of its inputs into the 256 bits of its canonical
/// representative, least significant first.
#[derive(Debug)]
pub struct BitDecompositionBasicBlock;

/// Bit `b` of the canonical representative of `x`: bit `b % 64` of limb
/// `b / 64`, limbs least significant first.
pub open spec fn fe_bit(x: Fe, b: int) -> bool {
    (x.spec_limb(b / 64) >> ((b % 64) as u64)) & 1u64 == 1u64
}

/// The elements of a list of vectors, one vector after another.
pub open spec fn all_elems(s: Seq<Vec<Fe>>) -> Seq<Fe>
    decreases s.len(),
{
    if s.len() == 0 {
        Seq::empty()
    } else {
        all_elems(s.drop_last()) + s.last()@
    }
}

/// Whether `v` holds, as zeros and ones, the bits of `x`.
pub open spec fn bits_of(v: Seq<Fe>, x: Fe) -> bool {
    &&& v.len() == 256
    &&& forall|b: int| 0 <= b < 256 ==> (#[trigger] v[b])@ == (if fe_bit(x, b) { 1nat } else { 0nat })
}

/// The 256 bits of an element, least significant first, as zeros and ones.
fn decompose(x: &Fe) -> (r: Vec<Fe>)
    ensures
        bits_of(r@, *x),
{
    let limbs = x.limbs();
    let mut r: Vec<Fe> = Vec::new();
    let mut q: usize = 0;
    while q < 4
        invariant
            q <= 4,
            limbs[0] == x.spec_limb(0),
            limbs[1] == x.spec_limb(1),
            limbs[2] == x.spec_limb(2),
            limbs[3] == x.spec_limb(3),
            r@.len() == q * 64,
            forall|b: int| 0 <= b < q * 64 ==> (#[trigger] r@[b])@ == (if fe_bit(*x, b) { 1nat } else { 0nat }),
        decreases 4 - q,
    {
        let limb = limbs[q];
        assert(limb == x.spec_limb(q as int));
        let mut s: u64 = 0;
        while s < 64
            invariant
                q < 4,
                limb == x.spec_limb(q as int),
                s <= 64,
                r@.len() == q * 64 + s,
                forall|b: int|
                    0 <= b < q * 64 + s ==> (#[trigger] r@[b])@ == (if fe_bit(*x, b) { 1nat } else { 0nat }),
            decreases 64 - s,
        {
            let bit = (limb >> s) & 1u64;
            proof {
                let b = q * 64 + s;
                vstd::arithmetic::div_mod::lemma_fundamental_div_mod_converse(b as int, 64, q as int, s as int);
                assert(bit == 0u64 || bit == 1u64) by (bit_vector)
                    requires
                        bit == (limb >> s) & 1u64,
                ;
            }
            if bit == 1u64 {
                r.push(Fe::one());
            } else {
                r.push(Fe::zero());
            }
            s = s + 1;
        }
        q = q + 1;
    }
    r
}

impl BitDecompositionBasicBlock {
    pub fn run(&self, _model: &Vec<Vec<Fe>>, inputs: &Vec<Vec<Fe>>) -> (r: Vec<Vec<Fe>>)
        ensures
            r@.len() == all_elems(inputs@).len(),
            forall|k: int| 0 <= k < r@.len() ==> bits_of((#[trigger] r@[k])@, all_elems(inputs@)[k]),
    {
        let mut r: Vec<Vec<Fe>> = Vec::new();
        let mut i: usize = 0;
        while i < inputs.len()
            invariant
                i <= inputs.len(),
                r@.len() == all_elems(inputs@.take(i as int)).len(),
                forall|k: int| 0 <= k < r@.len() ==> bits_of((#[trigger] r@[k])@, all_elems(inputs@.take(i as int))[k]),
            decreases inputs.len() - i,
        {
            let x = &inputs[i];
            let ghost before = all_elems(inputs@.take(i as int));
            proof {
                assert(inputs@.take(i + 1).drop_last() =~= inputs@.take(i as int));
                assert(all_elems(inputs@.take(i + 1)) == before + x@);
            }
            let mut j: usize = 0;
            while j < x.len()
                invariant
                    r@.len() == before.len() + j,
                    j <= x@.len(),
                    forall|k: int| 0 <= k < r@.len() ==> bits_of((#[trigger] r@[k])@, (before + x@)[k]),
                decreases x.len() - j,
            {
                let bits = decompose(&x[j]);
                r.push(bits);
                j = j + 1;
            }
            i = i + 1;
        }
        proof {
            assert(inputs@.take(inputs@.len() as int) =~= inputs@);
        }
        r
    }
}

} // verus!
