use executorch_node::eterror::ETError;
use executorch_node::evalue_tag::EValueTag;
use executorch_node::host::{HostTensorInfo, HostValueMeta};
use executorch_node::method_meta::{MethodMeta, TensorInfo, ValueMeta};
use executorch_node::tensor_type::TensorType;

fn tensor_entry(dtype: TensorType, shape: &[i32]) -> ValueMeta {
    ValueMeta::new(EValueTag::Tensor, Some(TensorInfo { dtype, shape: shape.to_vec() })).unwrap()
}

fn forward() -> MethodMeta {
    MethodMeta::new(
        String::from("forward"),
        vec![
            tensor_entry(TensorType::Float32, &[1, 3, 224, 224]),
            ValueMeta::new(EValueTag::Int, None).unwrap(),
        ],
        vec![tensor_entry(TensorType::Int64, &[1, 1000])],
    )
}

#[test]
fn entry_needs_tensor_information_exactly_for_a_tensor() {
    assert!(ValueMeta::new(EValueTag::Tensor, None).is_err());
    assert_eq!(
        ValueMeta::new(EValueTag::Tensor, None).err(),
        Some(ETError::InvalidArgument)
    );
    let info = TensorInfo { dtype: TensorType::UInt8, shape: vec![1] };
    assert_eq!(
        ValueMeta::new(EValueTag::Int, Some(info.clone())).err(),
        Some(ETError::InvalidArgument)
    );
    let entry = ValueMeta::new(EValueTag::Tensor, Some(info.clone())).unwrap();
    assert_eq!(entry.tag(), EValueTag::Tensor);
    assert_eq!(entry.tensor_info(), Some(&info));
    let plain = ValueMeta::new(EValueTag::Bool, None).unwrap();
    assert_eq!(plain.tag(), EValueTag::Bool);
    assert_eq!(plain.tensor_info(), None);
}

#[test]
fn metadata_answers_what_it_was_made_from() {
    let meta = forward();
    assert_eq!(meta.name(), "forward");
    assert!(meta.is_named(&String::from("forward")));
    assert!(!meta.is_named(&String::from("backward")));
    assert_eq!(meta.num_inputs(), 2);
    assert_eq!(meta.num_outputs(), 1);
    assert_eq!(meta.input_tag(0), EValueTag::Tensor);
    assert_eq!(meta.input_tag(1), EValueTag::Int);
    assert_eq!(meta.output_tag(0), EValueTag::Tensor);
    let info = meta.input_tensor_info(0);
    assert_eq!(info.dtype, TensorType::Float32);
    assert_eq!(info.shape, vec![1, 3, 224, 224]);
    let out = meta.output_tensor_info(0);
    assert_eq!(out.dtype, TensorType::Int64);
    assert_eq!(out.shape, vec![1, 1000]);
}

#[test]
fn to_js_shows_codes_and_shapes_in_order() {
    let host = forward().to_js();
    assert_eq!(host.name, "forward");
    assert_eq!(
        host.inputs,
        vec![
            HostValueMeta {
                tag: 1,
                tensor_info: Some(HostTensorInfo { dtype: 6, shape: vec![1, 3, 224, 224] }),
            },
            HostValueMeta { tag: 4, tensor_info: None },
        ]
    );
    assert_eq!(
        host.outputs,
        vec![HostValueMeta {
            tag: 1,
            tensor_info: Some(HostTensorInfo { dtype: 4, shape: vec![1, 1000] }),
        }]
    );
}

#[test]
fn to_js_of_a_method_without_inputs_or_outputs() {
    let host = MethodMeta::new(String::from("init"), vec![], vec![]).to_js();
    assert_eq!(host.name, "init");
    assert!(host.inputs.is_empty());
    assert!(host.outputs.is_empty());
}
