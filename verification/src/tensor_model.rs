//! The mathematical model of a tensor, and of creating one, reshaping it and
//! replacing its content.

use crate::eterror::ETError;
use crate::layout::{dims_nonneg, flat_index, in_bounds, shape_product};
use crate::tensor_type::TensorType;
use vstd::prelude::*;

verus! {

/// What a tensor is: an element type, a shape, and the bytes of its elements
/// in row-major order.
pub struct TensorView {
    pub dtype: TensorType,
    pub shape: Seq<int>,
    pub bytes: Seq<u8>,
}

impl TensorView {
    /// The bytes of one element.
    pub open spec fn width(self) -> int {
        self.dtype.width_of()
    }

    /// The number of axes.
    pub open spec fn rank(self) -> int {
        self.shape.len() as int
    }

    /// The number of elements.
    pub open spec fn numel(self) -> int {
        shape_product(self.shape)
    }

    /// The element type has a width, no size is negative, and the buffer
    /// holds exactly the elements of the shape.
    pub open spec fn wf(self) -> bool {
        &&& self.width() > 0
        &&& dims_nonneg(self.shape)
        &&& self.bytes.len() == self.width() * self.numel()
    }

    /// A machine can hold the tensor: every size fits a stored size, and the
    /// buffer fits the address space.
    pub open spec fn fits(self) -> bool {
        &&& forall|i: int| 0 <= i < self.shape.len() ==> self.shape[i] <= i32::MAX
        &&& self.bytes.len() <= usize::MAX
    }

    /// The bytes of the element at `pos`.
    pub open spec fn element(self, pos: Seq<int>) -> Seq<u8> {
        let start = flat_index(self.shape, pos) * self.width();
        self.bytes.subrange(start, start + self.width())
    }

    /// The byte at offset `k` of the element at `pos`.
    pub open spec fn element_byte(self, pos: Seq<int>, k: int) -> u8 {
        self.bytes[flat_index(self.shape, pos) * self.width() + k]
    }
}

/// Creating a tensor from an element type, a shape and a buffer: it succeeds
/// exactly when the three form a valid tensor, and is refused with
/// `InvalidArgument` otherwise.
pub open spec fn create_spec(dtype: TensorType, shape: Seq<int>, bytes: Seq<u8>) -> Result<
    TensorView,
    ETError,
> {
    let v = TensorView { dtype, shape, bytes };
    if v.wf() {
        Ok(v)
    } else {
        Err(ETError::InvalidArgument)
    }
}

/// Reshaping: a fresh tensor over the same bytes, refused with
/// `InvalidArgument` unless the new shape has as many elements as the old.
pub open spec fn reshape_spec(v: TensorView, shape: Seq<int>) -> Result<TensorView, ETError> {
    if shape_product(shape) == v.numel() {
        create_spec(v.dtype, shape, v.bytes)
    } else {
        Err(ETError::InvalidArgument)
    }
}

/// Replacing the whole buffer: refused with `InvalidArgument` unless the new
/// buffer is as long as the old.
pub open spec fn set_data_spec(v: TensorView, bytes: Seq<u8>) -> Result<TensorView, ETError> {
    if bytes.len() == v.bytes.len() {
        Ok(TensorView { bytes, ..v })
    } else {
        Err(ETError::InvalidArgument)
    }
}

/// Overwriting the element at `pos` with `value`: refused with
/// `InvalidArgument` unless `pos` is in bounds and `value` is as wide as an
/// element.
pub open spec fn set_value_spec(v: TensorView, pos: Seq<int>, value: Seq<u8>) -> Result<
    TensorView,
    ETError,
> {
    if in_bounds(v.shape, pos) && value.len() == v.width() {
        let start = flat_index(v.shape, pos) * v.width();
        Ok(
            TensorView {
                bytes: Seq::new(
                    v.bytes.len(),
                    |i: int|
                        if start <= i < start + v.width() {
                            value[i - start]
                        } else {
                            v.bytes[i]
                        },
                ),
                ..v
            },
        )
    } else {
        Err(ETError::InvalidArgument)
    }
}

} // verus!
