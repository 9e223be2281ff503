use executorch_node::eterror::ETError;
use executorch_node::tensor::{count_elements, flat_offset, sizes_valid, Tensor};
use executorch_node::tensor_type::TensorType;

fn int32_bytes(values: &[i32]) -> Vec<u8> {
    let mut out = Vec::new();
    for v in values {
        out.extend_from_slice(&v.to_le_bytes());
    }
    out
}

#[test]
fn create_keeps_type_shape_and_bytes() {
    let bytes: Vec<u8> = (0..24).collect();
    let t = Tensor::create(TensorType::Int16, &[3, 4], &bytes).unwrap();
    assert_eq!(t.dtype(), TensorType::Int16);
    assert_eq!(t.sizes(), &[3, 4]);
    assert_eq!(t.dim(), 2);
    assert_eq!(t.numel(), 12);
    assert_eq!(t.element_size(), 2);
    assert_eq!(t.nbytes(), 24);
    assert_eq!(t.get_data(), &bytes[..]);
}

#[test]
fn create_copies_its_buffer() {
    let mut bytes = vec![1u8, 2, 3];
    let t = Tensor::create(TensorType::UInt8, &[3], &bytes).unwrap();
    bytes[0] = 9;
    assert_eq!(t.get_data(), &[1, 2, 3]);
}

#[test]
fn create_of_rank_zero_holds_one_element() {
    let t = Tensor::create(TensorType::Float64, &[], &[0u8; 8]).unwrap();
    assert_eq!(t.dim(), 0);
    assert_eq!(t.numel(), 1);
    assert_eq!(
        Tensor::create(TensorType::Float64, &[], &[]).err(),
        Some(ETError::InvalidArgument)
    );
}

#[test]
fn create_with_an_empty_axis_holds_nothing() {
    let t = Tensor::create(TensorType::Int32, &[2, 0, 5], &[]).unwrap();
    assert_eq!(t.numel(), 0);
    assert_eq!(t.nbytes(), 0);
    let huge = Tensor::create(TensorType::Int64, &[i32::MAX, i32::MAX, i32::MAX, 0], &[]).unwrap();
    assert_eq!(huge.numel(), 0);
}

#[test]
fn create_rejects_wrong_length() {
    let r = Tensor::create(TensorType::Int32, &[4], &[0u8; 15]);
    assert_eq!(r.err(), Some(ETError::InvalidArgument));
    let r = Tensor::create(TensorType::Int32, &[4], &[0u8; 20]);
    assert_eq!(r.err(), Some(ETError::InvalidArgument));
    let r = Tensor::create(TensorType::UInt8, &[i32::MAX, i32::MAX, i32::MAX], &[0u8; 8]);
    assert_eq!(r.err(), Some(ETError::InvalidArgument));
}

#[test]
fn create_rejects_types_without_width() {
    let r = Tensor::create(TensorType::Float16, &[2], &[0u8; 4]);
    assert_eq!(r.err(), Some(ETError::InvalidArgument));
    let r = Tensor::create(TensorType::Bits8, &[0], &[]);
    assert_eq!(r.err(), Some(ETError::InvalidArgument));
}

#[test]
fn create_rejects_negative_sizes() {
    let r = Tensor::create(TensorType::UInt8, &[-2, -3], &[0u8; 6]);
    assert_eq!(r.err(), Some(ETError::InvalidArgument));
    let r = Tensor::create(TensorType::UInt8, &[-1, 0], &[]);
    assert_eq!(r.err(), Some(ETError::InvalidArgument));
}

#[test]
fn clone_is_equal_and_independent() {
    let mut a = Tensor::create(TensorType::UInt8, &[2], &[1, 2]).unwrap();
    let b = a.clone();
    assert_eq!(a, b);
    a.set_data(&[7, 8]).unwrap();
    assert_eq!(b.get_data(), &[1, 2]);
}

#[test]
fn set_data_replaces_the_buffer() {
    let mut t = Tensor::create(TensorType::Int32, &[2], &int32_bytes(&[1, 2])).unwrap();
    t.set_data(&int32_bytes(&[-5, 6])).unwrap();
    assert_eq!(t.get_data(), &int32_bytes(&[-5, 6])[..]);
    assert_eq!(t.sizes(), &[2]);
}

#[test]
fn set_data_rejects_another_length() {
    let mut t = Tensor::create(TensorType::Int32, &[2], &int32_bytes(&[1, 2])).unwrap();
    assert_eq!(t.set_data(&[0u8; 7]), Err(ETError::InvalidArgument));
    assert_eq!(t.set_data(&[0u8; 12]), Err(ETError::InvalidArgument));
    assert_eq!(t.get_data(), &int32_bytes(&[1, 2])[..]);
}

#[test]
fn set_value_writes_one_float_element() {
    let mut t = Tensor::create(TensorType::Float32, &[2, 3], &[0u8; 24]).unwrap();
    t.set_value(&[1, 2], &5.0f32.to_le_bytes()).unwrap();
    let floats: Vec<f32> = t
        .get_data()
        .chunks(4)
        .map(|c| f32::from_le_bytes([c[0], c[1], c[2], c[3]]))
        .collect();
    assert_eq!(floats, vec![0.0, 0.0, 0.0, 0.0, 0.0, 5.0]);
}

#[test]
fn set_value_addresses_row_major() {
    let mut t = Tensor::create(TensorType::UInt8, &[2, 3, 4], &[0u8; 24]).unwrap();
    t.set_value(&[1, 2, 3], &[7]).unwrap();
    t.set_value(&[1, 0, 2], &[5]).unwrap();
    t.set_value(&[0, 1, 0], &[3]).unwrap();
    let data = t.get_data();
    for (i, b) in data.iter().enumerate() {
        let want = match i {
            23 => 7,
            14 => 5,
            4 => 3,
            _ => 0,
        };
        assert_eq!(*b, want);
    }
}

#[test]
fn set_value_rejects_positions_out_of_bounds() {
    let mut t = Tensor::create(TensorType::UInt8, &[2, 3], &[0u8; 6]).unwrap();
    assert_eq!(t.set_value(&[2, 0], &[1]), Err(ETError::InvalidArgument));
    assert_eq!(t.set_value(&[0, 3], &[1]), Err(ETError::InvalidArgument));
    assert_eq!(t.set_value(&[-1, 0], &[1]), Err(ETError::InvalidArgument));
    assert_eq!(t.set_value(&[0], &[1]), Err(ETError::InvalidArgument));
    assert_eq!(t.set_value(&[0, 0, 0], &[1]), Err(ETError::InvalidArgument));
    assert_eq!(t.get_data(), &[0u8; 6]);
}

#[test]
fn set_value_rejects_values_of_another_width() {
    let mut t = Tensor::create(TensorType::Int16, &[2], &[0u8; 4]).unwrap();
    assert_eq!(t.set_value(&[0], &[1]), Err(ETError::InvalidArgument));
    assert_eq!(t.set_value(&[0], &[1, 2, 3]), Err(ETError::InvalidArgument));
    assert_eq!(t.set_value(&[1], &[1, 2]), Ok(()));
    assert_eq!(t.get_data(), &[0, 0, 1, 2]);
}

#[test]
fn set_value_on_rank_zero() {
    let mut t = Tensor::create(TensorType::UInt8, &[], &[4]).unwrap();
    t.set_value(&[], &[9]).unwrap();
    assert_eq!(t.get_data(), &[9]);
}

#[test]
fn contains_checks_every_coordinate() {
    let t = Tensor::create(TensorType::UInt8, &[2, 3], &[0u8; 6]).unwrap();
    assert!(t.contains(&[0, 0]));
    assert!(t.contains(&[1, 2]));
    assert!(!t.contains(&[1, 3]));
    assert!(!t.contains(&[1]));
    assert!(!t.contains(&[0, -1]));
}

#[test]
fn reshape_keeps_the_bytes() {
    let bytes: Vec<u8> = (0..12).collect();
    let t = Tensor::create(TensorType::UInt8, &[3, 4], &bytes).unwrap();
    let r = t.reshape(&[2, 6]).unwrap();
    assert_eq!(r.sizes(), &[2, 6]);
    assert_eq!(r.dtype(), TensorType::UInt8);
    assert_eq!(r.get_data(), &bytes[..]);
    let flat = t.reshape(&[12]).unwrap();
    assert_eq!(flat.sizes(), &[12]);
}

#[test]
fn reshape_there_and_back_gives_the_tensor() {
    let bytes: Vec<u8> = (0..48).collect();
    let t = Tensor::create(TensorType::Int16, &[2, 3, 4], &bytes).unwrap();
    let back = t.reshape(&[6, 4]).unwrap().reshape(&[2, 3, 4]).unwrap();
    assert_eq!(back, t);
}

#[test]
fn reshape_rejects_another_element_count() {
    let t = Tensor::create(TensorType::UInt8, &[3, 4], &[0u8; 12]).unwrap();
    assert_eq!(t.reshape(&[5, 2]).err(), Some(ETError::InvalidArgument));
    assert_eq!(t.reshape(&[]).err(), Some(ETError::InvalidArgument));
    assert_eq!(t.reshape(&[0]).err(), Some(ETError::InvalidArgument));
    assert_eq!(t.reshape(&[-3, -4]).err(), Some(ETError::InvalidArgument));
}

#[test]
fn reshape_of_one_element_to_rank_zero() {
    let t = Tensor::create(TensorType::UInt8, &[1, 1], &[5]).unwrap();
    let r = t.reshape(&[]).unwrap();
    assert_eq!(r.dim(), 0);
    assert_eq!(r.get_data(), &[5]);
}

#[test]
fn helpers_count_and_flatten() {
    assert!(sizes_valid(&[0, 3]));
    assert!(!sizes_valid(&[2, -1]));
    assert_eq!(count_elements(&[2, 3, 4], 24), Some(24));
    assert_eq!(count_elements(&[2, 3, 4], 23), None);
    assert_eq!(count_elements(&[], 0), None);
    assert_eq!(count_elements(&[], 1), Some(1));
    assert_eq!(count_elements(&[5, 0, 7], 0), Some(0));
    assert_eq!(flat_offset(&[2, 3, 4], &[1, 2, 3]), 23);
    assert_eq!(flat_offset(&[2, 3, 4], &[1, 0, 0]), 12);
    assert_eq!(flat_offset(&[], &[]), 0);
}
