//! The closed set of error kinds that the engine and this library report.

use vstd::prelude::*;

verus! {

/// An error kind. Each kind has a fixed numeric code shared with the engine.
#[derive(Debug, Copy, Clone, PartialEq, Eq, Structural)]
pub enum ETError {
    Success,
    Internal,
    InvalidState,
    EndOfMethod,
    NotSupported,
    NotImplemented,
    InvalidArgument,
    InvalidType,
    OperatorMissing,
    NotFound,
    MemoryAllocationFailed,
    AccessFailed,
    InvalidProgram,
    DelegateInvalidCompatibility,
    DelegateMemoryAllocationFailed,
    DelegateInvalidHandle,
}

impl ETError {
    /// The numeric code of this kind.
    pub open spec fn code_of(self) -> int {
        match self {
            ETError::Success => 0,
            ETError::Internal => 1,
            ETError::InvalidState => 2,
            ETError::EndOfMethod => 3,
            ETError::NotSupported => 16,
            ETError::NotImplemented => 17,
            ETError::InvalidArgument => 18,
            ETError::InvalidType => 19,
            ETError::OperatorMissing => 20,
            ETError::NotFound => 32,
            ETError::MemoryAllocationFailed => 33,
            ETError::AccessFailed => 34,
            ETError::InvalidProgram => 35,
            ETError::DelegateInvalidCompatibility => 48,
            ETError::DelegateMemoryAllocationFailed => 49,
            ETError::DelegateInvalidHandle => 50,
        }
    }

    /// The numeric code of this kind.
    pub fn code(self) -> (c: i32)
        ensures
            c == self.code_of(),
    {
        match self {
            ETError::Success => 0,
            ETError::Internal => 1,
            ETError::InvalidState => 2,
            ETError::EndOfMethod => 3,
            ETError::NotSupported => 16,
            ETError::NotImplemented => 17,
            ETError::InvalidArgument => 18,
            ETError::InvalidType => 19,
            ETError::OperatorMissing => 20,
            ETError::NotFound => 32,
            ETError::MemoryAllocationFailed => 33,
            ETError::AccessFailed => 34,
            ETError::InvalidProgram => 35,
            ETError::DelegateInvalidCompatibility => 48,
            ETError::DelegateMemoryAllocationFailed => 49,
            ETError::DelegateInvalidHandle => 50,
        }
    }
}

impl ETError {
    /// Whether `code` is the code of some kind.
    pub open spec fn is_code(code: int) -> bool {
        exists|e: ETError| e.code_of() == code
    }

    /// The kind behind a numeric code, or `None` where no kind has that code.
    pub fn from_code(code: i32) -> (r: Option<ETError>)
        ensures
            match r {
                Some(e) => e.code_of() == code,
                None => !Self::is_code(code as int),
            },
    {
        match code {
            0 => Some(ETError::Success),
            1 => Some(ETError::Internal),
            2 => Some(ETError::InvalidState),
            3 => Some(ETError::EndOfMethod),
            16 => Some(ETError::NotSupported),
            17 => Some(ETError::NotImplemented),
            18 => Some(ETError::InvalidArgument),
            19 => Some(ETError::InvalidType),
            20 => Some(ETError::OperatorMissing),
            32 => Some(ETError::NotFound),
            33 => Some(ETError::MemoryAllocationFailed),
            34 => Some(ETError::AccessFailed),
            35 => Some(ETError::InvalidProgram),
            48 => Some(ETError::DelegateInvalidCompatibility),
            49 => Some(ETError::DelegateMemoryAllocationFailed),
            50 => Some(ETError::DelegateInvalidHandle),
            _ => None,
        }
    }

    /// Kinds and codes stand one to one: two kinds with the same code are the
    /// same kind, and the code of a kind is a code.
    pub proof fn law_codes_one_to_one(a: ETError, b: ETError)
        ensures
            a.code_of() == b.code_of() ==> a == b,
            Self::is_code(a.code_of()),
    {
    }
}

impl From<ETError> for i32 {
    fn from(value: ETError) -> (code: i32) {
        value.code()
    }
}

impl vstd::std_specs::convert::FromSpecImpl<ETError> for i32 {
    open spec fn obeys_from_spec() -> bool {
        true
    }

    open spec fn from_spec(value: ETError) -> i32 {
        value.code_of() as i32
    }
}

} // verus!
