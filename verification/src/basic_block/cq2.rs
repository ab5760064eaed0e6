//! The witness check of a two-column lookup: the first column of the input
//! must lie in the range of the table.
use super::CQOutOfRangeError;
use crate::field::{fits_i128, fr_to_int, signed_value, Fe};
use crate::tensor::Tensor;
use vstd::prelude::*;

verus! {

/// Whether the signed value of an element lies in `[low, low + size)`.
pub open spec fn in_table_range(x: Fe, low: int, size: int) -> bool {
    low <= signed_value(x@) < low + size
}

/// The number of pairs a two-column input has.
pub open spec fn pair_count(inputs: Seq<Tensor<Fe>>) -> int {
    if inputs[0].data@.len() <= inputs[1].data@.len() {
        inputs[0].data@.len() as int
    } else {
        inputs[1].data@.len() as int
    }
}

/// The inputs the check accepts: two columns, where every first-column
/// element up to the first one out of range has a signed value within 128
/// bits.
pub open spec fn cq2_accepts(offset: i128, size: usize, model: Tensor<Fe>, inputs: Seq<Tensor<Fe>>) -> bool {
    model.ndim() == 2 ==> {
        &&& inputs.len() == 2
        &&& offset + size <= i128::MAX
        &&& forall|i: int|
            0 <= i < pair_count(inputs) && (forall|j: int|
                0 <= j < i ==> in_table_range(#[trigger] inputs[0].data@[j], offset as int, size as int))
                ==> fits_i128(signed_value(#[trigger] inputs[0].data@[i]@))
    }
}

/// Checks that the first-column elements of a two-column lookup input lie in
/// `[offset, offset + size)`. Without a two-dimensional table there is
/// nothing to check. The error names the first element out of range.
pub fn cq2_check_range(offset: i128, size: usize, model: &Tensor<Fe>, inputs: &Vec<Tensor<Fe>>) -> (r: Result<
    Vec<Tensor<Fe>>,
    CQOutOfRangeError,
>)
    requires
        cq2_accepts(offset, size, *model, inputs@),
    ensures
        r matches Ok(out) ==> out@.len() == 0,
        model.ndim() != 2 ==> r is Ok,
        model.ndim() == 2 ==> {
            &&& (r is Ok <==> forall|i: int|
                0 <= i < pair_count(inputs@) ==> in_table_range(
                    #[trigger] inputs@[0].data@[i],
                    offset as int,
                    size as int,
                ))
            &&& r matches Err(e) ==> exists|i: int|
                0 <= i < pair_count(inputs@) && !in_table_range(inputs@[0].data@[i], offset as int, size as int)
                    && (forall|j: int|
                    0 <= j < i ==> in_table_range(#[trigger] inputs@[0].data@[j], offset as int, size as int))
                    && e.input == signed_value(inputs@[0].data@[i]@)
        },
{
    if model.shape.len() != 2 {
        return Ok(Vec::new());
    }
    let xs = &inputs[0].data;
    let ys = &inputs[1].data;
    let n = if xs.len() <= ys.len() {
        xs.len()
    } else {
        ys.len()
    };
    let low = offset;
    let high = low + size as i128;
    let mut i: usize = 0;
    while i < n
        invariant
            cq2_accepts(offset, size, *model, inputs@),
            model.ndim() == 2,
            xs@ == inputs@[0].data@,
            n == pair_count(inputs@),
            low == offset,
            high == offset + size,
            i <= n,
            forall|j: int| 0 <= j < i ==> in_table_range(#[trigger] xs@[j], offset as int, size as int),
        decreases n - i,
    {
        let x = fr_to_int(&xs[i]);
        if x < low || x >= high {
            return Err(CQOutOfRangeError { input: x });
        }
        i = i + 1;
    }
    Ok(Vec::new())
}

} // verus!
