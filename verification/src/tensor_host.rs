//! The tensor operations as the host calls them: with numeric codes in place
//! of element types, selectors in place of ranges, and scalars of the host in
//! place of element bytes.
//!
//! Elements are stored little-endian, integers in two's complement.

use crate::eterror::ETError;
use crate::host::{HostScalar, HostTensor, SliceSelector};
use crate::layout::dims;
use crate::tensor::{updated, view_of, Tensor};
use crate::tensor_concat::{concat_spec, views};
use crate::tensor_model::{create_spec, reshape_spec, set_data_spec, set_value_spec};
use crate::tensor_slice::slice_spec;
use crate::tensor_type::TensorType;
use vstd::prelude::*;
use vstd::slice::slice_to_vec;

verus! {

/// 256 to the power `k`: the number of values that `k` bytes hold.
pub open spec fn pow256(k: nat) -> int
    decreases k,
{
    if k == 0 {
        1
    } else {
        256 * pow256((k - 1) as nat)
    }
}

/// The `width` low bytes of `pattern`, lowest first.
pub open spec fn le_bytes(pattern: int, width: nat) -> Seq<u8> {
    Seq::new(width, |k: int| ((pattern / pow256(k as nat)) % 256) as u8)
}

/// The number that has, as an unsigned number of `width` bytes, the bits
/// that `value` has in two's complement.
pub open spec fn pattern_of(value: int, width: nat) -> int {
    if value < 0 {
        value + pow256(width)
    } else {
        value
    }
}

/// `value` where it lies between `low` and `high`, else the nearer of the
/// two.
pub open spec fn clamp(value: int, low: int, high: int) -> int {
    if value < low {
        low
    } else if value > high {
        high
    } else {
        value
    }
}

/// The bytes of the element of type `dtype` that stands for `value`, `None`
/// where the type takes no such value. An integer type takes a number,
/// saturated to its range; a floating-point type takes a number in its own
/// precision; the boolean type takes a boolean.
pub open spec fn scalar_bytes(dtype: TensorType, value: HostScalar) -> Option<Seq<u8>> {
    match value {
        HostScalar::Number(n) => match dtype {
            TensorType::UInt8 => Some(le_bytes(clamp(n.integer as int, 0, 255), 1)),
            TensorType::Int8 => Some(le_bytes(pattern_of(clamp(n.integer as int, -128, 127), 1), 1)),
            TensorType::Int16 => Some(
                le_bytes(pattern_of(clamp(n.integer as int, -32768, 32767), 2), 2),
            ),
            TensorType::Int32 => Some(
                le_bytes(pattern_of(clamp(n.integer as int, -2147483648, 2147483647), 4), 4),
            ),
            TensorType::Int64 => Some(le_bytes(pattern_of(n.integer as int, 8), 8)),
            TensorType::Float32 => Some(le_bytes(n.single as int, 4)),
            TensorType::Float64 => Some(le_bytes(n.double as int, 8)),
            _ => None,
        },
        HostScalar::Boolean(b) => if dtype == TensorType::Bool {
            Some(le_bytes(if b { 1 } else { 0 }, 1))
        } else {
            None
        },
    }
}

/// The ranges that a list of selectors stands for on a tensor of `rank` axes:
/// a pair of bounds is a range, a single index `i` is the range from `i` up
/// to `i + 1`, and anything else, like a missing entry, is the whole axis.
pub open spec fn selected_ranges(selectors: Seq<SliceSelector>, rank: nat) -> Seq<
    (Option<i32>, Option<i32>),
> {
    Seq::new(
        if selectors.len() > rank {
            selectors.len()
        } else {
            rank
        },
        |j: int|
            if j < selectors.len() {
                match selectors[j] {
                    SliceSelector::Range(start, end) => (start, end),
                    SliceSelector::Index(i) => (Some(i), Some((i + 1) as i32)),
                    SliceSelector::All => (None, None),
                }
            } else {
                (None, None)
            },
    )
}

/// No selector is a single index whose successor no index can hold.
pub open spec fn selectors_ok(selectors: Seq<SliceSelector>) -> bool {
    forall|j: int|
        0 <= j < selectors.len() ==> #[trigger] selectors[j] != SliceSelector::Index(i32::MAX)
}

/// The values of `pow256` for the widths of the element types.
pub proof fn lemma_pow256()
    ensures
        pow256(0) == 1,
        pow256(1) == 0x100,
        pow256(2) == 0x1_0000,
        pow256(3) == 0x100_0000,
        pow256(4) == 0x1_0000_0000,
        pow256(5) == 0x100_0000_0000,
        pow256(6) == 0x1_0000_0000_0000,
        pow256(7) == 0x100_0000_0000_0000,
        pow256(8) == 0x1_0000_0000_0000_0000,
{
    reveal_with_fuel(pow256, 10);
}

/// The `width` low bytes of `pattern`, lowest first.
pub fn encode_le(pattern: u64, width: usize) -> (bytes: Vec<u8>)
    requires
        width <= 8,
    ensures
        bytes@ == le_bytes(pattern as int, width as nat),
{
    let mut bytes: Vec<u8> = Vec::new();
    let mut rest = pattern;
    let mut k: usize = 0;
    proof {
        lemma_pow256();
    }
    while k < width
        invariant
            k <= width <= 8,
            rest == (pattern as int) / pow256(k as nat),
            pow256(k as nat) > 0,
            bytes@.len() == k,
            forall|j: int|
                0 <= j < k ==> bytes@[j] == (((pattern as int) / pow256(j as nat)) % 256) as u8,
        decreases width - k,
    {
        bytes.push((rest % 256) as u8);
        proof {
            let p = pow256(k as nat);
            vstd::arithmetic::div_mod::lemma_div_denominator(pattern as int, p, 256);
            assert(pow256((k + 1) as nat) == 256 * p);
            assert(p * 256 == 256 * p);
        }
        rest = rest / 256;
        k += 1;
    }
    proof {
        assert(bytes@ =~= le_bytes(pattern as int, width as nat));
    }
    bytes
}

/// The bytes of the element of type `dtype` that stands for `value`, `None`
/// where the type takes no such value.
pub fn encode_scalar(dtype: TensorType, value: &HostScalar) -> (bytes: Option<Vec<u8>>)
    ensures
        match scalar_bytes(dtype, *value) {
            Some(b) => bytes matches Some(v) && v@ == b,
            None => bytes is None,
        },
{
    proof {
        lemma_pow256();
    }
    match value {
        HostScalar::Number(n) => {
            let v = n.integer;
            match dtype {
                TensorType::UInt8 => {
                    let c: i64 = if v < 0 {
                        0
                    } else if v > 255 {
                        255
                    } else {
                        v
                    };
                    Some(encode_le(c as u64, 1))
                },
                TensorType::Int8 => {
                    let c: i64 = if v < -128 {
                        -128
                    } else if v > 127 {
                        127
                    } else {
                        v
                    };
                    let p: i64 = if c < 0 {
                        c + 0x100
                    } else {
                        c
                    };
                    Some(encode_le(p as u64, 1))
                },
                TensorType::Int16 => {
                    let c: i64 = if v < -32768 {
                        -32768
                    } else if v > 32767 {
                        32767
                    } else {
                        v
                    };
                    let p: i64 = if c < 0 {
                        c + 0x1_0000
                    } else {
                        c
                    };
                    Some(encode_le(p as u64, 2))
                },
                TensorType::Int32 => {
                    let c: i64 = if v < -2147483648 {
                        -2147483648
                    } else if v > 2147483647 {
                        2147483647
                    } else {
                        v
                    };
                    let p: i64 = if c < 0 {
                        c + 0x1_0000_0000
                    } else {
                        c
                    };
                    Some(encode_le(p as u64, 4))
                },
                TensorType::Int64 => {
                    let p: u64 = if v < 0 {
                        ((v - i64::MIN) as u64) + 0x8000_0000_0000_0000u64
                    } else {
                        v as u64
                    };
                    Some(encode_le(p, 8))
                },
                TensorType::Float32 => Some(encode_le(n.single as u64, 4)),
                TensorType::Float64 => Some(encode_le(n.double, 8)),
                _ => None,
            }
        },
        HostScalar::Boolean(b) => {
            match dtype {
                TensorType::Bool => {
                    let p: u64 = if *b {
                        1
                    } else {
                        0
                    };
                    Some(encode_le(p, 1))
                },
                _ => None,
            }
        },
    }
}

impl Tensor {
    /// What the host sees of this tensor: the code of its type, its shape,
    /// and a copy of the tensor.
    pub fn to_js(&self) -> (host: HostTensor)
        ensures
            host.dtype == self@.dtype.code_of(),
            dims(host.shape@) == self@.shape,
            host.ptr@ == self@,
    {
        HostTensor {
            dtype: self.dtype().code(),
            shape: slice_to_vec(self.sizes()),
            ptr: self.clone(),
        }
    }
}

/// A tensor of the type with code `dtype`, of shape `shape`, over a copy of
/// `data`. Refused with `InvalidType` where no type has that code, and with
/// `InvalidArgument` where type, shape and data do not form a tensor.
pub fn create(dtype: i32, shape: &[i32], data: &[u8]) -> (r: Result<Tensor, ETError>)
    ensures
        view_of(r) == if TensorType::is_code(dtype as int) {
            create_spec(TensorType::with_code(dtype as int), dims(shape@), data@)
        } else {
            Err(ETError::InvalidType)
        },
{
    match TensorType::from_code(dtype) {
        Ok(t) => Tensor::create(t, shape, data),
        Err(e) => Err(e),
    }
}

/// The code of the tensor's element type.
pub fn get_dtype(tensor: &Tensor) -> (code: i32)
    ensures
        code == tensor@.dtype.code_of(),
{
    tensor.dtype().code()
}

/// A copy of the tensor's shape.
pub fn get_shape(tensor: &Tensor) -> (shape: Vec<i32>)
    ensures
        dims(shape@) == tensor@.shape,
{
    slice_to_vec(tensor.sizes())
}

/// A copy of the tensor's buffer.
pub fn get_data(tensor: &Tensor) -> (bytes: Vec<u8>)
    ensures
        bytes@ == tensor@.bytes,
{
    slice_to_vec(tensor.get_data())
}

/// Replaces the tensor's buffer by a copy of `data`. Refused with
/// `InvalidArgument`, and the tensor left as it was, unless `data` is as long
/// as the buffer.
pub fn set_data(tensor: &mut Tensor, data: &[u8]) -> (r: Result<(), ETError>)
    ensures
        updated(old(tensor)@, final(tensor)@, r, set_data_spec(old(tensor)@, data@)),
{
    tensor.set_data(data)
}

/// Overwrites the element at `position` with the element that stands for
/// `value`. Refused with `InvalidArgument`, and the tensor left as it was,
/// where the tensor's type takes no such value or `position` is not in
/// bounds.
pub fn set_value(tensor: &mut Tensor, position: &[i32], value: &HostScalar) -> (r: Result<
    (),
    ETError,
>)
    ensures
        updated(
            old(tensor)@,
            final(tensor)@,
            r,
            match scalar_bytes(old(tensor)@.dtype, *value) {
                Some(bytes) => set_value_spec(old(tensor)@, dims(position@), bytes),
                None => Err(ETError::InvalidArgument),
            },
        ),
{
    match encode_scalar(tensor.dtype(), value) {
        Some(bytes) => tensor.set_value(position, bytes.as_slice()),
        None => Err(ETError::InvalidArgument),
    }
}

/// The tensors of `tensors` joined along `axis`. Refused with
/// `InvalidArgument` where they cannot be joined.
pub fn concat(tensors: &[&Tensor], axis: i64) -> (r: Result<Tensor, ETError>)
    ensures
        view_of(r) == concat_spec(views(tensors@), axis as int),
{
    Tensor::concat(tensors, axis)
}

/// A tensor of shape `shape` over a copy of the tensor's buffer. Refused
/// with `InvalidArgument` unless `shape` has as many elements as the tensor.
pub fn reshape(tensor: &Tensor, shape: &[i32]) -> (r: Result<Tensor, ETError>)
    ensures
        view_of(r) == reshape_spec(tensor@, dims(shape@)),
{
    tensor.reshape(shape)
}

/// The sub-tensor that `selectors` select. A single index whose successor no
/// index can hold is refused with `InvalidArgument`, like ranges that cannot
/// be applied to the tensor.
pub fn slice(tensor: &Tensor, selectors: &[SliceSelector]) -> (r: Result<Tensor, ETError>)
    ensures
        view_of(r) == if selectors_ok(selectors@) {
            slice_spec(tensor@, selected_ranges(selectors@, tensor@.shape.len()))
        } else {
            Err(ETError::InvalidArgument)
        },
{
    let rank = tensor.dim();
    let mut ranges: Vec<(Option<i32>, Option<i32>)> = Vec::new();
    let mut j: usize = 0;
    while j < selectors.len()
        invariant
            j <= selectors@.len(),
            ranges@.len() == j,
            forall|i: int| 0 <= i < j ==> #[trigger] selectors@[i] != SliceSelector::Index(i32::MAX),
            forall|i: int|
                0 <= i < j ==> #[trigger] ranges@[i] == selected_ranges(
                    selectors@,
                    rank as nat,
                )[i],
        decreases selectors.len() - j,
    {
        let range = match selectors[j] {
            SliceSelector::Range(start, end) => (start, end),
            SliceSelector::Index(i) => {
                if i == i32::MAX {
                    return Err(ETError::InvalidArgument);
                }
                (Some(i), Some(i + 1))
            },
            SliceSelector::All => (None, None),
        };
        ranges.push(range);
        j += 1;
    }
    while j < rank
        invariant
            selectors@.len() <= j,
            j <= rank || j == selectors@.len(),
            ranges@.len() == j,
            selectors_ok(selectors@),
            forall|i: int|
                0 <= i < j ==> #[trigger] ranges@[i] == selected_ranges(
                    selectors@,
                    rank as nat,
                )[i],
        decreases rank - j,
    {
        ranges.push((None, None));
        j += 1;
    }
    proof {
        assert(ranges@ =~= selected_ranges(selectors@, rank as nat));
    }
    tensor.slice(ranges)
}

} // verus!
