//! The values of the host runtime that cross the boundary, as plain data.
//!
//! The binding turns the host's own values into these types before it calls
//! the library, and turns them back afterwards. A number of the host is a
//! double; where one is only carried, it is held by its bit pattern.

use crate::tensor::Tensor;
use crate::tensor_model::TensorView;
use vstd::prelude::*;

verus! {

/// One entry of the list that selects a slice: a pair of optional bounds, a
/// single index, or anything else, which selects the whole axis.
#[derive(Debug, Copy, Clone, PartialEq, Eq, Structural)]
pub enum SliceSelector {
    Range(Option<i32>, Option<i32>),
    Index(i32),
    All,
}

/// A number of the host, by the readings that the element types take of it.
#[derive(Debug, Copy, Clone, PartialEq, Eq, Structural)]
pub struct HostNumber {
    /// The number rounded toward zero and saturated to 64 bits, 0 where it
    /// is not a number.
    pub integer: i64,
    /// The bit pattern of the nearest single-precision number.
    pub single: u32,
    /// The bit pattern of the number itself.
    pub double: u64,
}

/// A scalar of the host that can be written into a tensor.
#[derive(Debug, Copy, Clone, PartialEq, Eq, Structural)]
pub enum HostScalar {
    Number(HostNumber),
    Boolean(bool),
}

/// What the host sees of a tensor: the code of its element type, its shape,
/// and the tensor itself.
#[derive(Debug, Clone, PartialEq, Eq)]
pub struct HostTensor {
    pub dtype: i32,
    pub shape: Vec<i32>,
    pub ptr: Tensor,
}

/// One element of a list of the host.
#[derive(Debug, Copy, Clone, PartialEq, Eq, Structural)]
pub enum HostItem {
    Boolean(bool),
    /// A number, by its bit pattern.
    Number(u64),
    /// A big integer, `None` where 64 bits do not hold it.
    BigInt(Option<i64>),
    Other,
}

/// The payload of a tagged value as the host holds it.
#[derive(Debug, Clone, PartialEq, Eq)]
pub enum HostData {
    Null,
    Undefined,
    Tensor(Tensor),
    Text(String),
    /// A number, by its bit pattern.
    Number(u64),
    /// A big integer, `None` where 64 bits do not hold it.
    BigInt(Option<i64>),
    Boolean(bool),
    List(Vec<HostItem>),
    Other,
}

/// The model of a payload.
pub enum HostDataView {
    Null,
    Undefined,
    Tensor(TensorView),
    Text(Seq<char>),
    Number(u64),
    BigInt(Option<i64>),
    Boolean(bool),
    List(Seq<HostItem>),
    Other,
}

impl View for HostData {
    type V = HostDataView;

    open spec fn view(&self) -> HostDataView {
        match self {
            HostData::Null => HostDataView::Null,
            HostData::Undefined => HostDataView::Undefined,
            HostData::Tensor(t) => HostDataView::Tensor(t@),
            HostData::Text(s) => HostDataView::Text(s@),
            HostData::Number(bits) => HostDataView::Number(*bits),
            HostData::BigInt(i) => HostDataView::BigInt(*i),
            HostData::Boolean(b) => HostDataView::Boolean(*b),
            HostData::List(items) => HostDataView::List(items@),
            HostData::Other => HostDataView::Other,
        }
    }
}

/// A tagged value as the host holds it: an object with a numeric tag and a
/// payload. The tag is `None` where the object has no tag or its tag is not
/// a number.
#[derive(Debug, Clone, PartialEq, Eq)]
pub struct HostEValue {
    pub tag: Option<i32>,
    pub data: HostData,
}

/// The model of a tagged value of the host.
pub struct HostEValueView {
    pub tag: Option<i32>,
    pub data: HostDataView,
}

impl View for HostEValue {
    type V = HostEValueView;

    open spec fn view(&self) -> HostEValueView {
        HostEValueView { tag: self.tag, data: self.data@ }
    }
}

/// What the host sees of the type and shape that a method declares for a
/// tensor.
#[derive(Debug, Clone, PartialEq, Eq)]
pub struct HostTensorInfo {
    pub dtype: i32,
    pub shape: Vec<i32>,
}

/// What the host sees of one input or output that a method declares.
#[derive(Debug, Clone, PartialEq, Eq)]
pub struct HostValueMeta {
    pub tag: i32,
    pub tensor_info: Option<HostTensorInfo>,
}

/// What the host sees of a method's metadata.
#[derive(Debug, Clone, PartialEq, Eq)]
pub struct HostMethodMeta {
    pub name: String,
    pub inputs: Vec<HostValueMeta>,
    pub outputs: Vec<HostValueMeta>,
}

} // verus!
