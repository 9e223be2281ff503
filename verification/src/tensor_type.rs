//! The element types of tensors.

use crate::eterror::ETError;
use vstd::prelude::*;

verus! {

/// The binary representation of one tensor element. Each type has a fixed
/// numeric code shared with the engine and with the host.
#[derive(Debug, Copy, Clone, PartialEq, Eq, Structural)]
pub enum TensorType {
    UInt8,
    Int8,
    Int16,
    Int32,
    Int64,
    Float16,
    Float32,
    Float64,
    ComplexFloat16,
    ComplexFloat32,
    ComplexFloat64,
    Bool,
    QInt8,
    QUInt8,
    QInt32,
    BFloat16,
    QUInt4x2,
    QUInt2x4,
    Bits1x8,
    Bits2x4,
    Bits4x2,
    Bits8,
    Bits16,
}

impl TensorType {
    /// The numeric code of this type.
    pub open spec fn code_of(self) -> int {
        match self {
            TensorType::UInt8 => 0,
            TensorType::Int8 => 1,
            TensorType::Int16 => 2,
            TensorType::Int32 => 3,
            TensorType::Int64 => 4,
            TensorType::Float16 => 5,
            TensorType::Float32 => 6,
            TensorType::Float64 => 7,
            TensorType::ComplexFloat16 => 8,
            TensorType::ComplexFloat32 => 9,
            TensorType::ComplexFloat64 => 10,
            TensorType::Bool => 11,
            TensorType::QInt8 => 12,
            TensorType::QUInt8 => 13,
            TensorType::QInt32 => 14,
            TensorType::BFloat16 => 15,
            TensorType::QUInt4x2 => 16,
            TensorType::QUInt2x4 => 17,
            TensorType::Bits1x8 => 18,
            TensorType::Bits2x4 => 19,
            TensorType::Bits4x2 => 20,
            TensorType::Bits8 => 21,
            TensorType::Bits16 => 22,
        }
    }

    /// Whether `code` is the code of some type.
    pub open spec fn is_code(code: int) -> bool {
        0 <= code <= 22
    }

    /// The type with the code `code`, where it is the code of a type.
    pub open spec fn with_code(code: int) -> TensorType {
        if code == 0 {
            TensorType::UInt8
        } else if code == 1 {
            TensorType::Int8
        } else if code == 2 {
            TensorType::Int16
        } else if code == 3 {
            TensorType::Int32
        } else if code == 4 {
            TensorType::Int64
        } else if code == 5 {
            TensorType::Float16
        } else if code == 6 {
            TensorType::Float32
        } else if code == 7 {
            TensorType::Float64
        } else if code == 8 {
            TensorType::ComplexFloat16
        } else if code == 9 {
            TensorType::ComplexFloat32
        } else if code == 10 {
            TensorType::ComplexFloat64
        } else if code == 11 {
            TensorType::Bool
        } else if code == 12 {
            TensorType::QInt8
        } else if code == 13 {
            TensorType::QUInt8
        } else if code == 14 {
            TensorType::QInt32
        } else if code == 15 {
            TensorType::BFloat16
        } else if code == 16 {
            TensorType::QUInt4x2
        } else if code == 17 {
            TensorType::QUInt2x4
        } else if code == 18 {
            TensorType::Bits1x8
        } else if code == 19 {
            TensorType::Bits2x4
        } else if code == 20 {
            TensorType::Bits4x2
        } else if code == 21 {
            TensorType::Bits8
        } else {
            TensorType::Bits16
        }
    }

    /// The number of bytes that one element takes in a tensor's buffer, or 0
    /// for the types whose elements this library cannot address (half
    /// precision, complex, quantized and bit-packed ones).
    pub open spec fn width_of(self) -> int {
        match self {
            TensorType::UInt8 => 1,
            TensorType::Int8 => 1,
            TensorType::Int16 => 2,
            TensorType::Int32 => 4,
            TensorType::Int64 => 8,
            TensorType::Float32 => 4,
            TensorType::Float64 => 8,
            TensorType::Bool => 1,
            _ => 0,
        }
    }

    /// The numeric code of this type.
    pub fn code(self) -> (c: i32)
        ensures
            c == self.code_of(),
    {
        match self {
            TensorType::UInt8 => 0,
            TensorType::Int8 => 1,
            TensorType::Int16 => 2,
            TensorType::Int32 => 3,
            TensorType::Int64 => 4,
            TensorType::Float16 => 5,
            TensorType::Float32 => 6,
            TensorType::Float64 => 7,
            TensorType::ComplexFloat16 => 8,
            TensorType::ComplexFloat32 => 9,
            TensorType::ComplexFloat64 => 10,
            TensorType::Bool => 11,
            TensorType::QInt8 => 12,
            TensorType::QUInt8 => 13,
            TensorType::QInt32 => 14,
            TensorType::BFloat16 => 15,
            TensorType::QUInt4x2 => 16,
            TensorType::QUInt2x4 => 17,
            TensorType::Bits1x8 => 18,
            TensorType::Bits2x4 => 19,
            TensorType::Bits4x2 => 20,
            TensorType::Bits8 => 21,
            TensorType::Bits16 => 22,
        }
    }

    /// The type behind a numeric code. A code that no type has is refused
    /// with `InvalidType`.
    pub fn from_code(code: i32) -> (r: Result<TensorType, ETError>)
        ensures
            match r {
                Ok(t) => t.code_of() == code && t == Self::with_code(code as int),
                Err(e) => !Self::is_code(code as int) && e == ETError::InvalidType,
            },
    {
        match code {
            0 => Ok(TensorType::UInt8),
            1 => Ok(TensorType::Int8),
            2 => Ok(TensorType::Int16),
            3 => Ok(TensorType::Int32),
            4 => Ok(TensorType::Int64),
            5 => Ok(TensorType::Float16),
            6 => Ok(TensorType::Float32),
            7 => Ok(TensorType::Float64),
            8 => Ok(TensorType::ComplexFloat16),
            9 => Ok(TensorType::ComplexFloat32),
            10 => Ok(TensorType::ComplexFloat64),
            11 => Ok(TensorType::Bool),
            12 => Ok(TensorType::QInt8),
            13 => Ok(TensorType::QUInt8),
            14 => Ok(TensorType::QInt32),
            15 => Ok(TensorType::BFloat16),
            16 => Ok(TensorType::QUInt4x2),
            17 => Ok(TensorType::QUInt2x4),
            18 => Ok(TensorType::Bits1x8),
            19 => Ok(TensorType::Bits2x4),
            20 => Ok(TensorType::Bits4x2),
            21 => Ok(TensorType::Bits8),
            22 => Ok(TensorType::Bits16),
            _ => Err(ETError::InvalidType),
        }
    }

    /// The number of bytes of one element, 0 where the type has no width
    /// that this library can address.
    pub fn byte_width(self) -> (w: usize)
        ensures
            w == self.width_of(),
    {
        match self {
            TensorType::UInt8 => 1,
            TensorType::Int8 => 1,
            TensorType::Int16 => 2,
            TensorType::Int32 => 4,
            TensorType::Int64 => 8,
            TensorType::Float32 => 4,
            TensorType::Float64 => 8,
            TensorType::Bool => 1,
            _ => 0,
        }
    }

    /// Types and codes stand one to one: every type has a code in range, two
    /// types with the same code are the same type, and the type with the code
    /// of a type is that type. A width is 0, 1, 2, 4 or 8.
    pub proof fn law_codes_one_to_one(a: TensorType, b: TensorType)
        ensures
            Self::is_code(a.code_of()),
            a.code_of() == b.code_of() ==> a == b,
            Self::with_code(a.code_of()) == a,
            a.width_of() == 0 || a.width_of() == 1 || a.width_of() == 2 || a.width_of() == 4
                || a.width_of() == 8,
    {
    }
}

impl From<TensorType> for i32 {
    fn from(value: TensorType) -> (code: i32) {
        value.code()
    }
}

impl vstd::std_specs::convert::FromSpecImpl<TensorType> for i32 {
    open spec fn obeys_from_spec() -> bool {
        true
    }

    open spec fn from_spec(value: TensorType) -> i32 {
        value.code_of() as i32
    }
}

impl From<TensorType> for usize {
    fn from(value: TensorType) -> (width: usize) {
        value.byte_width()
    }
}

impl vstd::std_specs::convert::FromSpecImpl<TensorType> for usize {
    open spec fn obeys_from_spec() -> bool {
        true
    }

    open spec fn from_spec(value: TensorType) -> usize {
        value.width_of() as usize
    }
}

} // verus!
