//! Tagged values: what a method takes and gives, and how such a value is
//! given to the host and taken from it.

use crate::eterror::ETError;
use crate::evalue_tag::EValueTag;
use crate::host::{HostData, HostDataView, HostEValue, HostEValueView, HostItem};
use crate::tensor::Tensor;
use crate::tensor_model::TensorView;
use vstd::prelude::*;

verus! {

/// A value with a tag. A double is held by its bit pattern. The lists of
/// tensors, of scalars and of optional tensors have a tag but no content
/// that this library reads.
#[derive(Debug, Clone, PartialEq, Eq)]
pub enum EValue {
    Null,
    Tensor(Tensor),
    String(String),
    Double(u64),
    Int(i64),
    Bool(bool),
    ListBool(Vec<bool>),
    ListDouble(Vec<u64>),
    ListInt(Vec<i64>),
    ListTensor,
    ListScalar,
    ListOptionalTensor,
}

/// The model of a tagged value.
pub enum EValueView {
    Null,
    Tensor(TensorView),
    String(Seq<char>),
    Double(u64),
    Int(i64),
    Bool(bool),
    ListBool(Seq<bool>),
    ListDouble(Seq<u64>),
    ListInt(Seq<i64>),
    ListTensor,
    ListScalar,
    ListOptionalTensor,
}

impl View for EValue {
    type V = EValueView;

    open spec fn view(&self) -> EValueView {
        match self {
            EValue::Null => EValueView::Null,
            EValue::Tensor(t) => EValueView::Tensor(t@),
            EValue::String(s) => EValueView::String(s@),
            EValue::Double(bits) => EValueView::Double(*bits),
            EValue::Int(i) => EValueView::Int(*i),
            EValue::Bool(b) => EValueView::Bool(*b),
            EValue::ListBool(l) => EValueView::ListBool(l@),
            EValue::ListDouble(l) => EValueView::ListDouble(l@),
            EValue::ListInt(l) => EValueView::ListInt(l@),
            EValue::ListTensor => EValueView::ListTensor,
            EValue::ListScalar => EValueView::ListScalar,
            EValue::ListOptionalTensor => EValueView::ListOptionalTensor,
        }
    }
}

impl EValueView {
    /// The tag of the value: which variant it is.
    pub open spec fn tag(self) -> EValueTag {
        match self {
            EValueView::Null => EValueTag::Null,
            EValueView::Tensor(_) => EValueTag::Tensor,
            EValueView::String(_) => EValueTag::String,
            EValueView::Double(_) => EValueTag::Double,
            EValueView::Int(_) => EValueTag::Int,
            EValueView::Bool(_) => EValueTag::Bool,
            EValueView::ListBool(_) => EValueTag::ListBool,
            EValueView::ListDouble(_) => EValueTag::ListDouble,
            EValueView::ListInt(_) => EValueTag::ListInt,
            EValueView::ListTensor => EValueTag::ListTensor,
            EValueView::ListScalar => EValueTag::ListScalar,
            EValueView::ListOptionalTensor => EValueTag::ListOptionalTensor,
        }
    }
}

/// The model of the value in a result, the error unchanged.
pub open spec fn value_of(r: Result<EValue, ETError>) -> Result<EValueView, ETError> {
    match r {
        Ok(v) => Ok(v@),
        Err(e) => Err(e),
    }
}

/// Every item is a boolean.
pub open spec fn all_booleans(items: Seq<HostItem>) -> bool {
    forall|i: int| 0 <= i < items.len() ==> #[trigger] items[i] is Boolean
}

/// Every item is a number.
pub open spec fn all_numbers(items: Seq<HostItem>) -> bool {
    forall|i: int| 0 <= i < items.len() ==> #[trigger] items[i] is Number
}

/// Every item is a big integer that 64 bits hold.
pub open spec fn all_integers(items: Seq<HostItem>) -> bool {
    forall|i: int| 0 <= i < items.len() ==> #[trigger] items[i] matches HostItem::BigInt(Some(_))
}

/// The booleans of a list of booleans.
pub open spec fn booleans(items: Seq<HostItem>) -> Seq<bool> {
    Seq::new(items.len(), |i: int| items[i]->Boolean_0)
}

/// The bit patterns of a list of numbers.
pub open spec fn numbers(items: Seq<HostItem>) -> Seq<u64> {
    Seq::new(items.len(), |i: int| items[i]->Number_0)
}

/// The integers of a list of big integers that 64 bits hold.
pub open spec fn integers(items: Seq<HostItem>) -> Seq<i64> {
    Seq::new(items.len(), |i: int| items[i]->BigInt_0->Some_0)
}

/// Whether `data` is a payload of the kind that `tag` asks for: a tensor for
/// a tensor, a text for a string, a number for a double, a big integer that
/// 64 bits hold for an integer, a boolean for a boolean, and for a list a
/// list whose items are all of the kind of its elements. A value without
/// content asks for nothing.
pub open spec fn accepts(tag: EValueTag, data: HostDataView) -> bool {
    match tag {
        EValueTag::Null => true,
        EValueTag::Tensor => data is Tensor,
        EValueTag::String => data is Text,
        EValueTag::Double => data is Number,
        EValueTag::Int => data matches HostDataView::BigInt(Some(_)),
        EValueTag::Bool => data is Boolean,
        EValueTag::ListBool => data matches HostDataView::List(items) && all_booleans(items),
        EValueTag::ListDouble => data matches HostDataView::List(items) && all_numbers(items),
        EValueTag::ListInt => data matches HostDataView::List(items) && all_integers(items),
        _ => false,
    }
}

/// The value with tag `tag` that a payload of its kind holds.
pub open spec fn value_in(tag: EValueTag, data: HostDataView) -> EValueView {
    match tag {
        EValueTag::Tensor => EValueView::Tensor(data->Tensor_0),
        EValueTag::String => EValueView::String(data->Text_0),
        EValueTag::Double => EValueView::Double(data->Number_0),
        EValueTag::Int => EValueView::Int(data->BigInt_0->Some_0),
        EValueTag::Bool => EValueView::Bool(data->Boolean_0),
        EValueTag::ListBool => EValueView::ListBool(booleans(data->List_0)),
        EValueTag::ListDouble => EValueView::ListDouble(numbers(data->List_0)),
        EValueTag::ListInt => EValueView::ListInt(integers(data->List_0)),
        _ => EValueView::Null,
    }
}

/// Taking a value from the host. The tag decides, never the payload: a value
/// is refused with `InvalidArgument` where it has no numeric tag, where no
/// tag has its code, and where its payload is not of the kind that the tag
/// asks for; it is refused with `NotSupported` where its tag is one of those
/// that cannot be taken from the host.
pub open spec fn decode_spec(host: HostEValueView) -> Result<EValueView, ETError> {
    match host.tag {
        None => Err(ETError::InvalidArgument),
        Some(code) => {
            let tag = EValueTag::with_code(code as int);
            if !EValueTag::is_code(code as int) {
                Err(ETError::InvalidArgument)
            } else if !tag.decodable() {
                Err(ETError::NotSupported)
            } else if accepts(tag, host.data) {
                Ok(value_in(tag, host.data))
            } else {
                Err(ETError::InvalidArgument)
            }
        },
    }
}

/// Giving a value to the host: its tag's code, and its content as a payload.
/// An integer is given as a big integer, so that the host loses none of its
/// 64 bits. The lists that have no content here are given as undefined.
pub open spec fn encode_spec(v: EValueView) -> HostEValueView {
    HostEValueView {
        tag: Some(v.tag().code_of() as i32),
        data: match v {
            EValueView::Null => HostDataView::Null,
            EValueView::Tensor(t) => HostDataView::Tensor(t),
            EValueView::String(s) => HostDataView::Text(s),
            EValueView::Double(bits) => HostDataView::Number(bits),
            EValueView::Int(i) => HostDataView::BigInt(Some(i)),
            EValueView::Bool(b) => HostDataView::Boolean(b),
            EValueView::ListBool(l) => HostDataView::List(
                Seq::new(l.len(), |i: int| HostItem::Boolean(l[i])),
            ),
            EValueView::ListDouble(l) => HostDataView::List(
                Seq::new(l.len(), |i: int| HostItem::Number(l[i])),
            ),
            EValueView::ListInt(l) => HostDataView::List(
                Seq::new(l.len(), |i: int| HostItem::BigInt(Some(l[i]))),
            ),
            _ => HostDataView::Undefined,
        },
    }
}

/// A value that was given to the host comes back as it was, unless its tag
/// is one of those that cannot be taken from the host.
pub proof fn law_round_trip(v: EValueView)
    requires
        v.tag().decodable(),
    ensures
        decode_spec(encode_spec(v)) == Ok::<EValueView, ETError>(v),
{
    EValueTag::law_codes_one_to_one(v.tag(), v.tag());
    let h = encode_spec(v);
    match v {
        EValueView::ListBool(l) => {
            assert(booleans(h.data->List_0) =~= l);
        },
        EValueView::ListDouble(l) => {
            assert(numbers(h.data->List_0) =~= l);
        },
        EValueView::ListInt(l) => {
            assert(integers(h.data->List_0) =~= l);
        },
        _ => {},
    }
}

/// A value whose payload is not of the kind that its tag asks for is refused
/// with `InvalidArgument`, whatever the payload is.
pub proof fn law_mismatch_is_refused(host: HostEValueView)
    requires
        host.tag matches Some(code) && EValueTag::is_code(code as int) && EValueTag::with_code(
            code as int,
        ).decodable() && !accepts(EValueTag::with_code(code as int), host.data),
    ensures
        decode_spec(host) == Err::<EValueView, ETError>(ETError::InvalidArgument),
{
}

/// The booleans of `items`, `None` unless every item is a boolean.
fn take_booleans(items: &Vec<HostItem>) -> (r: Option<Vec<bool>>)
    ensures
        match r {
            Some(l) => all_booleans(items@) && l@ == booleans(items@),
            None => !all_booleans(items@),
        },
{
    let mut out: Vec<bool> = Vec::new();
    let mut i: usize = 0;
    while i < items.len()
        invariant
            i <= items@.len(),
            out@.len() == i,
            forall|j: int| 0 <= j < i ==> #[trigger] items@[j] is Boolean,
            forall|j: int| 0 <= j < i ==> #[trigger] out@[j] == items@[j]->Boolean_0,
        decreases items.len() - i,
    {
        match items[i] {
            HostItem::Boolean(b) => out.push(b),
            _ => {
                assert(!(items@[i as int] is Boolean));
                return None;
            },
        }
        i += 1;
    }
    proof {
        assert(out@ =~= booleans(items@));
    }
    Some(out)
}

/// The bit patterns of `items`, `None` unless every item is a number.
fn take_numbers(items: &Vec<HostItem>) -> (r: Option<Vec<u64>>)
    ensures
        match r {
            Some(l) => all_numbers(items@) && l@ == numbers(items@),
            None => !all_numbers(items@),
        },
{
    let mut out: Vec<u64> = Vec::new();
    let mut i: usize = 0;
    while i < items.len()
        invariant
            i <= items@.len(),
            out@.len() == i,
            forall|j: int| 0 <= j < i ==> #[trigger] items@[j] is Number,
            forall|j: int| 0 <= j < i ==> #[trigger] out@[j] == items@[j]->Number_0,
        decreases items.len() - i,
    {
        match items[i] {
            HostItem::Number(bits) => out.push(bits),
            _ => {
                assert(!(items@[i as int] is Number));
                return None;
            },
        }
        i += 1;
    }
    proof {
        assert(out@ =~= numbers(items@));
    }
    Some(out)
}

/// The integers of `items`, `None` unless every item is a big integer that
/// 64 bits hold.
fn take_integers(items: &Vec<HostItem>) -> (r: Option<Vec<i64>>)
    ensures
        match r {
            Some(l) => all_integers(items@) && l@ == integers(items@),
            None => !all_integers(items@),
        },
{
    let mut out: Vec<i64> = Vec::new();
    let mut i: usize = 0;
    while i < items.len()
        invariant
            i <= items@.len(),
            out@.len() == i,
            forall|j: int| 0 <= j < i ==> #[trigger] items@[j] matches HostItem::BigInt(Some(_)),
            forall|j: int| 0 <= j < i ==> #[trigger] out@[j] == items@[j]->BigInt_0->Some_0,
        decreases items.len() - i,
    {
        match items[i] {
            HostItem::BigInt(Some(value)) => out.push(value),
            _ => {
                assert(!(items@[i as int] matches HostItem::BigInt(Some(_))));
                return None;
            },
        }
        i += 1;
    }
    proof {
        assert(out@ =~= integers(items@));
    }
    Some(out)
}

impl EValue {
    /// A value that holds a copy of `value`.
    pub fn from_tensor(value: &Tensor) -> (v: EValue)
        ensures
            v@ == EValueView::Tensor(value@),
    {
        EValue::Tensor(value.clone())
    }

    /// A value that holds the text `value`.
    pub fn from_string(value: String) -> (v: EValue)
        ensures
            v@ == EValueView::String(value@),
    {
        EValue::String(value)
    }

    /// A value that holds the double with bit pattern `bits`.
    pub fn from_double(bits: u64) -> (v: EValue)
        ensures
            v@ == EValueView::Double(bits),
    {
        EValue::Double(bits)
    }

    /// A value that holds the integer `value`.
    pub fn from_int(value: i64) -> (v: EValue)
        ensures
            v@ == EValueView::Int(value),
    {
        EValue::Int(value)
    }

    /// A value that holds the boolean `value`.
    pub fn from_bool(value: bool) -> (v: EValue)
        ensures
            v@ == EValueView::Bool(value),
    {
        EValue::Bool(value)
    }

    /// The value without content.
    pub fn null() -> (v: EValue)
        ensures
            v@ == EValueView::Null,
    {
        EValue::Null
    }

    /// The tag of the value: which variant it is.
    pub fn tag(&self) -> (t: EValueTag)
        ensures
            t == self@.tag(),
    {
        match self {
            EValue::Null => EValueTag::Null,
            EValue::Tensor(_) => EValueTag::Tensor,
            EValue::String(_) => EValueTag::String,
            EValue::Double(_) => EValueTag::Double,
            EValue::Int(_) => EValueTag::Int,
            EValue::Bool(_) => EValueTag::Bool,
            EValue::ListBool(_) => EValueTag::ListBool,
            EValue::ListDouble(_) => EValueTag::ListDouble,
            EValue::ListInt(_) => EValueTag::ListInt,
            EValue::ListTensor => EValueTag::ListTensor,
            EValue::ListScalar => EValueTag::ListScalar,
            EValue::ListOptionalTensor => EValueTag::ListOptionalTensor,
        }
    }

    /// A copy of the tensor that the value holds.
    pub fn get_tensor(&self) -> (t: Tensor)
        requires
            self@ is Tensor,
        ensures
            t@ == self@->Tensor_0,
    {
        match self {
            EValue::Tensor(t) => t.clone(),
            _ => vstd::pervasive::unreached(),
        }
    }

    /// The text that the value holds.
    pub fn get_string(&self) -> (s: &str)
        requires
            self@ is String,
        ensures
            s@ == self@->String_0,
    {
        match self {
            EValue::String(s) => s.as_str(),
            _ => vstd::pervasive::unreached(),
        }
    }

    /// The bit pattern of the double that the value holds.
    pub fn get_double(&self) -> (bits: u64)
        requires
            self@ is Double,
        ensures
            bits == self@->Double_0,
    {
        match self {
            EValue::Double(bits) => *bits,
            _ => vstd::pervasive::unreached(),
        }
    }

    /// The integer that the value holds.
    pub fn get_int(&self) -> (i: i64)
        requires
            self@ is Int,
        ensures
            i == self@->Int_0,
    {
        match self {
            EValue::Int(i) => *i,
            _ => vstd::pervasive::unreached(),
        }
    }

    /// The boolean that the value holds.
    pub fn get_bool(&self) -> (b: bool)
        requires
            self@ is Bool,
        ensures
            b == self@->Bool_0,
    {
        match self {
            EValue::Bool(b) => *b,
            _ => vstd::pervasive::unreached(),
        }
    }

    /// The booleans that the value holds.
    pub fn get_bool_list(&self) -> (l: &[bool])
        requires
            self@ is ListBool,
        ensures
            l@ == self@->ListBool_0,
    {
        match self {
            EValue::ListBool(l) => l.as_slice(),
            _ => vstd::pervasive::unreached(),
        }
    }

    /// The bit patterns of the doubles that the value holds.
    pub fn get_double_list(&self) -> (l: &[u64])
        requires
            self@ is ListDouble,
        ensures
            l@ == self@->ListDouble_0,
    {
        match self {
            EValue::ListDouble(l) => l.as_slice(),
            _ => vstd::pervasive::unreached(),
        }
    }

    /// The integers that the value holds.
    pub fn get_int_list(&self) -> (l: &[i64])
        requires
            self@ is ListInt,
        ensures
            l@ == self@->ListInt_0,
    {
        match self {
            EValue::ListInt(l) => l.as_slice(),
            _ => vstd::pervasive::unreached(),
        }
    }

    /// The value as the host holds it.
    pub fn to_js(&self) -> (host: HostEValue)
        ensures
            host@ == encode_spec(self@),
    {
        let tag = self.tag().code();
        let data = match self {
            EValue::Null => HostData::Null,
            EValue::Tensor(t) => HostData::Tensor(t.clone()),
            EValue::String(s) => HostData::Text(s.clone()),
            EValue::Double(bits) => HostData::Number(*bits),
            EValue::Int(i) => HostData::BigInt(Some(*i)),
            EValue::Bool(b) => HostData::Boolean(*b),
            EValue::ListBool(l) => {
                let mut items: Vec<HostItem> = Vec::new();
                let mut i: usize = 0;
                while i < l.len()
                    invariant
                        i <= l@.len(),
                        items@.len() == i,
                        forall|j: int| 0 <= j < i ==> #[trigger] items@[j] == HostItem::Boolean(l@[j]),
                    decreases l.len() - i,
                {
                    items.push(HostItem::Boolean(l[i]));
                    i += 1;
                }
                proof {
                    assert(items@ =~= Seq::new(l@.len(), |i: int| HostItem::Boolean(l@[i])));
                }
                HostData::List(items)
            },
            EValue::ListDouble(l) => {
                let mut items: Vec<HostItem> = Vec::new();
                let mut i: usize = 0;
                while i < l.len()
                    invariant
                        i <= l@.len(),
                        items@.len() == i,
                        forall|j: int| 0 <= j < i ==> #[trigger] items@[j] == HostItem::Number(l@[j]),
                    decreases l.len() - i,
                {
                    items.push(HostItem::Number(l[i]));
                    i += 1;
                }
                proof {
                    assert(items@ =~= Seq::new(l@.len(), |i: int| HostItem::Number(l@[i])));
                }
                HostData::List(items)
            },
            EValue::ListInt(l) => {
                let mut items: Vec<HostItem> = Vec::new();
                let mut i: usize = 0;
                while i < l.len()
                    invariant
                        i <= l@.len(),
                        items@.len() == i,
                        forall|j: int|
                            0 <= j < i ==> #[trigger] items@[j] == HostItem::BigInt(Some(l@[j])),
                    decreases l.len() - i,
                {
                    items.push(HostItem::BigInt(Some(l[i])));
                    i += 1;
                }
                proof {
                    assert(items@ =~= Seq::new(l@.len(), |i: int| HostItem::BigInt(Some(l@[i]))));
                }
                HostData::List(items)
            },
            _ => HostData::Undefined,
        };
        HostEValue { tag: Some(tag), data }
    }

    /// The value that the host holds as `host`. Refused with
    /// `InvalidArgument` where it has no numeric tag, where no tag has its
    /// code, and where its payload is not of the kind that the tag asks for;
    /// refused with `NotSupported` where its tag is that of a list of
    /// tensors, of scalars or of optional tensors.
    pub fn from_js(host: &HostEValue) -> (r: Result<EValue, ETError>)
        ensures
            value_of(r) == decode_spec(host@),
    {
        let code = match host.tag {
            Some(code) => code,
            None => {
                return Err(ETError::InvalidArgument);
            },
        };
        let tag = match EValueTag::from_code(code) {
            Ok(tag) => tag,
            Err(e) => {
                return Err(e);
            },
        };
        match tag {
            EValueTag::Null => Ok(EValue::Null),
            EValueTag::Tensor => match &host.data {
                HostData::Tensor(t) => Ok(EValue::Tensor(t.clone())),
                _ => Err(ETError::InvalidArgument),
            },
            EValueTag::String => match &host.data {
                HostData::Text(s) => Ok(EValue::String(s.clone())),
                _ => Err(ETError::InvalidArgument),
            },
            EValueTag::Double => match &host.data {
                HostData::Number(bits) => Ok(EValue::Double(*bits)),
                _ => Err(ETError::InvalidArgument),
            },
            EValueTag::Int => match &host.data {
                HostData::BigInt(Some(i)) => Ok(EValue::Int(*i)),
                _ => Err(ETError::InvalidArgument),
            },
            EValueTag::Bool => match &host.data {
                HostData::Boolean(b) => Ok(EValue::Bool(*b)),
                _ => Err(ETError::InvalidArgument),
            },
            EValueTag::ListBool => match &host.data {
                HostData::List(items) => match take_booleans(items) {
                    Some(l) => Ok(EValue::ListBool(l)),
                    None => Err(ETError::InvalidArgument),
                },
                _ => Err(ETError::InvalidArgument),
            },
            EValueTag::ListDouble => match &host.data {
                HostData::List(items) => match take_numbers(items) {
                    Some(l) => Ok(EValue::ListDouble(l)),
                    None => Err(ETError::InvalidArgument),
                },
                _ => Err(ETError::InvalidArgument),
            },
            EValueTag::ListInt => match &host.data {
                HostData::List(items) => match take_integers(items) {
                    Some(l) => Ok(EValue::ListInt(l)),
                    None => Err(ETError::InvalidArgument),
                },
                _ => Err(ETError::InvalidArgument),
            },
            _ => Err(ETError::NotSupported),
        }
    }
}

} // verus!
