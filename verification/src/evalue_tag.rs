//! The tags of the tagged values that cross the boundary.

use crate::eterror::ETError;
use vstd::prelude::*;

verus! {

/// Which variant a tagged value holds. Each tag has a fixed numeric code
/// shared with the engine and with the host.
#[derive(Debug, Copy, Clone, PartialEq, Eq, Structural)]
pub enum EValueTag {
    Null,
    Tensor,
    String,
    Double,
    Int,
    Bool,
    ListBool,
    ListDouble,
    ListInt,
    ListTensor,
    ListScalar,
    ListOptionalTensor,
}

impl EValueTag {
    /// The numeric code of this tag.
    pub open spec fn code_of(self) -> int {
        match self {
            EValueTag::Null => 0,
            EValueTag::Tensor => 1,
            EValueTag::String => 2,
            EValueTag::Double => 3,
            EValueTag::Int => 4,
            EValueTag::Bool => 5,
            EValueTag::ListBool => 6,
            EValueTag::ListDouble => 7,
            EValueTag::ListInt => 8,
            EValueTag::ListTensor => 9,
            EValueTag::ListScalar => 10,
            EValueTag::ListOptionalTensor => 11,
        }
    }

    /// Whether `code` is the code of some tag.
    pub open spec fn is_code(code: int) -> bool {
        0 <= code <= 11
    }

    /// The tag with the code `code`, where it is the code of a tag.
    pub open spec fn with_code(code: int) -> EValueTag {
        if code == 0 {
            EValueTag::Null
        } else if code == 1 {
            EValueTag::Tensor
        } else if code == 2 {
            EValueTag::String
        } else if code == 3 {
            EValueTag::Double
        } else if code == 4 {
            EValueTag::Int
        } else if code == 5 {
            EValueTag::Bool
        } else if code == 6 {
            EValueTag::ListBool
        } else if code == 7 {
            EValueTag::ListDouble
        } else if code == 8 {
            EValueTag::ListInt
        } else if code == 9 {
            EValueTag::ListTensor
        } else if code == 10 {
            EValueTag::ListScalar
        } else {
            EValueTag::ListOptionalTensor
        }
    }

    /// Whether values with this tag can be taken from the host. The lists of
    /// tensors, of scalars and of optional tensors cannot.
    pub open spec fn decodable(self) -> bool {
        !(self is ListTensor || self is ListScalar || self is ListOptionalTensor)
    }

    /// The numeric code of this tag.
    pub fn code(self) -> (c: i32)
        ensures
            c == self.code_of(),
    {
        match self {
            EValueTag::Null => 0,
            EValueTag::Tensor => 1,
            EValueTag::String => 2,
            EValueTag::Double => 3,
            EValueTag::Int => 4,
            EValueTag::Bool => 5,
            EValueTag::ListBool => 6,
            EValueTag::ListDouble => 7,
            EValueTag::ListInt => 8,
            EValueTag::ListTensor => 9,
            EValueTag::ListScalar => 10,
            EValueTag::ListOptionalTensor => 11,
        }
    }

    /// The tag behind a numeric code. A code that no tag has is refused with
    /// `InvalidArgument`.
    pub fn from_code(code: i32) -> (r: Result<EValueTag, ETError>)
        ensures
            match r {
                Ok(t) => t.code_of() == code && t == Self::with_code(code as int),
                Err(e) => !Self::is_code(code as int) && e == ETError::InvalidArgument,
            },
    {
        match code {
            0 => Ok(EValueTag::Null),
            1 => Ok(EValueTag::Tensor),
            2 => Ok(EValueTag::String),
            3 => Ok(EValueTag::Double),
            4 => Ok(EValueTag::Int),
            5 => Ok(EValueTag::Bool),
            6 => Ok(EValueTag::ListBool),
            7 => Ok(EValueTag::ListDouble),
            8 => Ok(EValueTag::ListInt),
            9 => Ok(EValueTag::ListTensor),
            10 => Ok(EValueTag::ListScalar),
            11 => Ok(EValueTag::ListOptionalTensor),
            _ => Err(ETError::InvalidArgument),
        }
    }

    /// Tags and codes stand one to one: every tag has a code in range, two
    /// tags with the same code are the same tag, and the tag with the code
    /// of a tag is that tag.
    pub proof fn law_codes_one_to_one(a: EValueTag, b: EValueTag)
        ensures
            Self::is_code(a.code_of()),
            a.code_of() == b.code_of() ==> a == b,
            Self::with_code(a.code_of()) == a,
    {
    }
}

impl From<EValueTag> for i32 {
    fn from(value: EValueTag) -> (code: i32) {
        value.code()
    }
}

impl vstd::std_specs::convert::FromSpecImpl<EValueTag> for i32 {
    open spec fn obeys_from_spec() -> bool {
        true
    }

    open spec fn from_spec(value: EValueTag) -> i32 {
        value.code_of() as i32
    }
}

} // verus!
