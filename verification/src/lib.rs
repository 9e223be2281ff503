//! Verified core of a Node.js binding for an on-device inference engine.
//!
//! The binding stands between a host that calls and an engine that computes.
//! This library holds what the binding decides on its own:
//!
//! - the numeric codes of error kinds, value tags and element types,
//! - tensors over a contiguous row-major buffer, with creating, reshaping,
//!   slicing and joining them, and the laws that these obey,
//! - tagged values, and how they are given to the host and taken from it,
//! - the metadata that a method declares,
//! - the control state of a loaded model.
//!
//! The host's values and the engine's answers reach the library as plain
//! data; the binding around it does the calls.

pub mod eterror;
pub mod evalue;
pub mod evalue_tag;
pub mod host;
pub mod layout;
pub mod method_meta;
pub mod module;
pub mod sampler;
pub mod tensor;
pub mod tensor_concat;
pub mod tensor_host;
pub mod tensor_laws;
pub mod tensor_model;
pub mod tensor_slice;
pub mod tensor_type;
