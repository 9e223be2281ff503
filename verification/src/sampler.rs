//! What a sampler reads of a tensor of scores.
//!
//! A language model gives one row of scores for every position of its input.
//! The next token is drawn from the row of the last position.

use crate::eterror::ETError;
use crate::tensor::Tensor;
use crate::tensor_model::TensorView;
use crate::tensor_type::TensorType;
use vstd::prelude::*;
use vstd::slice::slice_subrange;

verus! {

/// Whether `v` holds rows of scores: single-precision numbers in a shape of
/// one batch, some positions and a row length, with a last position unless
/// the rows are empty.
pub open spec fn holds_scores(v: TensorView) -> bool {
    &&& v.dtype == TensorType::Float32
    &&& v.shape.len() == 3
    &&& v.shape[0] == 1
    &&& (v.shape[1] >= 1 || v.shape[2] == 0)
}

/// The bytes of the row of the last position.
pub open spec fn last_row(v: TensorView) -> Seq<u8> {
    v.bytes.subrange(4 * ((v.shape[1] - 1) * v.shape[2]), 4 * (v.shape[1] * v.shape[2]))
}

/// The bytes of the scores of the last position of `input`. Refused with
/// `InvalidArgument` unless `input` holds rows of scores.
pub fn last_scores(input: &Tensor) -> (r: Result<&[u8], ETError>)
    ensures
        match r {
            Ok(bytes) => holds_scores(input@) && bytes@ == last_row(input@),
            Err(e) => !holds_scores(input@) && e == ETError::InvalidArgument,
        },
{
    input.check();
    let shape = input.sizes();
    let is_single = match input.dtype() {
        TensorType::Float32 => true,
        _ => false,
    };
    if !is_single || shape.len() != 3 {
        return Err(ETError::InvalidArgument);
    }
    if shape[0] != 1 || (shape[1] < 1 && shape[2] != 0) {
        proof {
            assert(input@.shape[0] == shape@[0]);
            assert(input@.shape[1] == shape@[1]);
            assert(input@.shape[2] == shape@[2]);
        }
        return Err(ETError::InvalidArgument);
    }
    let data = input.get_data();
    let count = input.numel();
    let row: usize = shape[2] as usize;
    let ghost v = input@;
    proof {
        let s = v.shape;
        assert(s[0] == shape@[0] && s[1] == shape@[1] && s[2] == shape@[2]);
        assert(s[1] >= 0 && s[2] >= 0);
        let two = s.drop_last();
        let one = two.drop_last();
        assert(one.drop_last().len() == 0);
        assert(crate::layout::shape_product(one.drop_last()) == 1);
        assert(one.last() == s[0]);
        assert(crate::layout::shape_product(one) == 1);
        assert(two.last() == s[1]);
        assert(crate::layout::shape_product(two) == crate::layout::shape_product(one) * s[1]);
        assert(crate::layout::shape_product(two) == s[1]);
        assert(s.last() == s[2]);
        assert(crate::layout::shape_product(s) == crate::layout::shape_product(two) * s[2]);
        assert(count == s[1] * s[2]);
        assert((s[1] - 1) * s[2] == s[1] * s[2] - s[2]) by (nonlinear_arith);
        assert(s[2] <= s[1] * s[2] || s[1] == 0) by (nonlinear_arith)
            requires
                s[1] >= 0,
                s[2] >= 0,
        ;
        assert(s[1] == 0 ==> s[1] * s[2] == 0) by (nonlinear_arith);
    }
    let first: usize = if shape[1] < 1 {
        0
    } else {
        count - row
    };
    Ok(slice_subrange(data, 4 * first, 4 * count))
}

} // verus!
