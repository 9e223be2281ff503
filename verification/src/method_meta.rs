//! What a method declares of its inputs and outputs.

use crate::eterror::ETError;
use crate::evalue_tag::EValueTag;
use crate::host::{HostMethodMeta, HostTensorInfo, HostValueMeta};
use crate::tensor_type::TensorType;
use vstd::prelude::*;

verus! {

/// The element type and shape that a method declares for a tensor.
#[derive(Debug, Clone, PartialEq, Eq)]
pub struct TensorInfo {
    pub dtype: TensorType,
    pub shape: Vec<i32>,
}

/// What a method declares of one input or output: its tag, and for a tensor
/// its type and shape.
#[derive(Debug)]
pub struct ValueMeta {
    tag: EValueTag,
    tensor_info: Option<TensorInfo>,
}

/// A snapshot of what a method declares: its name, its inputs and its
/// outputs, in order.
#[derive(Debug)]
pub struct MethodMeta {
    name: String,
    inputs: Vec<ValueMeta>,
    outputs: Vec<ValueMeta>,
}

/// The model of the type and shape that a method declares for a tensor.
pub struct TensorInfoView {
    pub dtype: TensorType,
    pub shape: Seq<i32>,
}

impl View for TensorInfo {
    type V = TensorInfoView;

    open spec fn view(&self) -> TensorInfoView {
        TensorInfoView { dtype: self.dtype, shape: self.shape@ }
    }
}

/// The model of what a method declares of one input or output.
pub struct ValueMetaView {
    pub tag: EValueTag,
    pub tensor_info: Option<TensorInfoView>,
}

impl ValueMetaView {
    /// There is tensor information exactly where the tag is that of a
    /// tensor.
    pub open spec fn wf(self) -> bool {
        self.tag is Tensor <==> self.tensor_info is Some
    }
}

impl View for ValueMeta {
    type V = ValueMetaView;

    closed spec fn view(&self) -> ValueMetaView {
        ValueMetaView {
            tag: self.tag,
            tensor_info: match self.tensor_info {
                Some(info) => Some(info@),
                None => None,
            },
        }
    }
}

/// The models of a sequence of entries.
pub open spec fn entry_views(entries: Seq<ValueMeta>) -> Seq<ValueMetaView> {
    Seq::new(entries.len(), |i: int| entries[i]@)
}

/// `host` is what the host sees of `info`: the code of the type, and the
/// same shape.
pub open spec fn info_shown(host: HostTensorInfo, info: TensorInfoView) -> bool {
    &&& host.dtype == info.dtype.code_of()
    &&& host.shape@ == info.shape
}

/// `host` is what the host sees of `entry`: the code of the tag, and the
/// tensor information where there is one.
pub open spec fn entry_shown(host: HostValueMeta, entry: ValueMetaView) -> bool {
    &&& host.tag == entry.tag.code_of()
    &&& match entry.tensor_info {
        Some(i) => host.tensor_info matches Some(h) && info_shown(h, i),
        None => host.tensor_info is None,
    }
}

/// `host` is what the host sees of `entries`, entry by entry.
pub open spec fn entries_shown(host: Seq<HostValueMeta>, entries: Seq<ValueMetaView>) -> bool {
    &&& host.len() == entries.len()
    &&& forall|i: int| 0 <= i < entries.len() ==> entry_shown(#[trigger] host[i], entries[i])
}

impl ValueMeta {
    #[verifier::type_invariant]
    spec fn valid(self) -> bool {
        self@.wf()
    }

    /// An entry with tag `tag` and tensor information `tensor_info`. Refused
    /// with `InvalidArgument` unless there is tensor information exactly
    /// where the tag is that of a tensor.
    pub fn new(tag: EValueTag, tensor_info: Option<TensorInfo>) -> (r: Result<ValueMeta, ETError>)
        ensures
            match r {
                Ok(m) => (tag is Tensor <==> tensor_info is Some) && m@.tag == tag && match tensor_info {
                    Some(info) => m@.tensor_info == Some(info@),
                    None => m@.tensor_info is None,
                },
                Err(e) => !(tag is Tensor <==> tensor_info is Some) && e
                    == ETError::InvalidArgument,
            },
    {
        let is_tensor = match tag {
            EValueTag::Tensor => true,
            _ => false,
        };
        if is_tensor != tensor_info.is_some() {
            return Err(ETError::InvalidArgument);
        }
        Ok(ValueMeta { tag, tensor_info })
    }

    /// The tag that is declared.
    pub fn tag(&self) -> (t: EValueTag)
        ensures
            t == self@.tag,
            self@.wf(),
    {
        proof {
            use_type_invariant(self);
        }
        self.tag
    }

    /// The tensor information that is declared, if any.
    pub fn tensor_info(&self) -> (info: Option<&TensorInfo>)
        ensures
            match info {
                Some(i) => self@.tensor_info == Some(i@),
                None => self@.tensor_info is None,
            },
            self@.wf(),
    {
        proof {
            use_type_invariant(self);
        }
        self.tensor_info.as_ref()
    }

    /// What the host sees of the entry.
    pub fn to_js(&self) -> (host: HostValueMeta)
        ensures
            entry_shown(host, self@),
    {
        let tensor_info = match &self.tensor_info {
            Some(info) => Some(HostTensorInfo { dtype: info.dtype.code(), shape: info.shape.clone() }),
            None => None,
        };
        HostValueMeta { tag: self.tag.code(), tensor_info }
    }
}

/// The model of a method's metadata.
pub struct MethodMetaView {
    pub name: Seq<char>,
    pub inputs: Seq<ValueMetaView>,
    pub outputs: Seq<ValueMetaView>,
}

impl View for MethodMeta {
    type V = MethodMetaView;

    closed spec fn view(&self) -> MethodMetaView {
        MethodMetaView {
            name: self.name@,
            inputs: entry_views(self.inputs@),
            outputs: entry_views(self.outputs@),
        }
    }
}

/// What the host sees of every entry of `entries`.
fn show_entries(entries: &Vec<ValueMeta>) -> (host: Vec<HostValueMeta>)
    ensures
        entries_shown(host@, entry_views(entries@)),
{
    let mut host: Vec<HostValueMeta> = Vec::new();
    let mut i: usize = 0;
    while i < entries.len()
        invariant
            i <= entries@.len(),
            host@.len() == i,
            forall|j: int| 0 <= j < i ==> entry_shown(#[trigger] host@[j], entries@[j]@),
        decreases entries.len() - i,
    {
        host.push(entries[i].to_js());
        i += 1;
    }
    host
}

impl MethodMeta {
    /// The metadata of a method named `name` that declares `inputs` and
    /// `outputs`.
    pub fn new(name: String, inputs: Vec<ValueMeta>, outputs: Vec<ValueMeta>) -> (m: MethodMeta)
        ensures
            m@ == (MethodMetaView {
                name: name@,
                inputs: entry_views(inputs@),
                outputs: entry_views(outputs@),
            }),
    {
        MethodMeta { name, inputs, outputs }
    }

    /// The name of the method.
    pub fn name(&self) -> (name: String)
        ensures
            name@ == self@.name,
    {
        self.name.clone()
    }

    /// Whether the method is named `name`.
    pub fn is_named(&self, name: &String) -> (yes: bool)
        ensures
            yes == (self@.name == name@),
    {
        self.name.eq(name)
    }

    /// The number of inputs that the method declares.
    pub fn num_inputs(&self) -> (n: usize)
        ensures
            n == self@.inputs.len(),
    {
        self.inputs.len()
    }

    /// The number of outputs that the method declares.
    pub fn num_outputs(&self) -> (n: usize)
        ensures
            n == self@.outputs.len(),
    {
        self.outputs.len()
    }

    /// The tag of input `index`.
    pub fn input_tag(&self, index: usize) -> (t: EValueTag)
        requires
            index < self@.inputs.len(),
        ensures
            t == self@.inputs[index as int].tag,
    {
        self.inputs[index].tag()
    }

    /// The tag of output `index`.
    pub fn output_tag(&self, index: usize) -> (t: EValueTag)
        requires
            index < self@.outputs.len(),
        ensures
            t == self@.outputs[index as int].tag,
    {
        self.outputs[index].tag()
    }

    /// The type and shape of input `index`, which is a tensor.
    pub fn input_tensor_info(&self, index: usize) -> (info: &TensorInfo)
        requires
            index < self@.inputs.len(),
            self@.inputs[index as int].tag is Tensor,
        ensures
            self@.inputs[index as int].tensor_info == Some(info@),
    {
        match self.inputs[index].tensor_info() {
            Some(info) => info,
            None => vstd::pervasive::unreached(),
        }
    }

    /// The type and shape of output `index`, which is a tensor.
    pub fn output_tensor_info(&self, index: usize) -> (info: &TensorInfo)
        requires
            index < self@.outputs.len(),
            self@.outputs[index as int].tag is Tensor,
        ensures
            self@.outputs[index as int].tensor_info == Some(info@),
    {
        match self.outputs[index].tensor_info() {
            Some(info) => info,
            None => vstd::pervasive::unreached(),
        }
    }

    /// What the host sees of the metadata: the name, and every input and
    /// output in order, each with the code of its tag and, for a tensor, the
    /// code of its type and its shape.
    pub fn to_js(&self) -> (host: HostMethodMeta)
        ensures
            host.name@ == self@.name,
            entries_shown(host.inputs@, self@.inputs),
            entries_shown(host.outputs@, self@.outputs),
    {
        HostMethodMeta {
            name: self.name.clone(),
            inputs: show_entries(&self.inputs),
            outputs: show_entries(&self.outputs),
        }
    }
}

} // verus!
