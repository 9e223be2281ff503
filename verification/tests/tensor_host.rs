use executorch_node::eterror::ETError;
use executorch_node::host::{HostNumber, HostScalar, SliceSelector};
use executorch_node::tensor::Tensor;
use executorch_node::tensor_host;
use executorch_node::tensor_host::{
    create, encode_le, encode_scalar, get_data, get_dtype, get_shape, reshape, set_data,
    set_value, slice,
};
use executorch_node::tensor_type::TensorType;

fn number(value: f64) -> HostScalar {
    HostScalar::Number(HostNumber {
        integer: value as i64,
        single: (value as f32).to_bits(),
        double: value.to_bits(),
    })
}

fn grid() -> Tensor {
    let mut bytes = Vec::new();
    for r in 0..3u8 {
        for c in 0..4u8 {
            bytes.push(10 * r + c);
        }
    }
    Tensor::create(TensorType::UInt8, &[3, 4], &bytes).unwrap()
}

#[test]
fn create_by_code() {
    let t = create(3, &[2], &[1, 0, 0, 0, 2, 0, 0, 0]).unwrap();
    assert_eq!(t.dtype(), TensorType::Int32);
    assert_eq!(get_dtype(&t), 3);
    assert_eq!(get_shape(&t), vec![2]);
    assert_eq!(get_data(&t), vec![1, 0, 0, 0, 2, 0, 0, 0]);
}

#[test]
fn create_by_unknown_code_is_an_invalid_type() {
    assert_eq!(create(23, &[1], &[0]).err(), Some(ETError::InvalidType));
    assert_eq!(create(-1, &[1], &[0]).err(), Some(ETError::InvalidType));
}

#[test]
fn create_by_code_of_a_type_without_width_is_an_invalid_argument() {
    assert_eq!(create(5, &[1], &[0, 0]).err(), Some(ETError::InvalidArgument));
    assert_eq!(create(0, &[2], &[0]).err(), Some(ETError::InvalidArgument));
}

#[test]
fn to_js_shows_code_shape_and_tensor() {
    let t = grid();
    let host = t.to_js();
    assert_eq!(host.dtype, 0);
    assert_eq!(host.shape, vec![3, 4]);
    assert_eq!(host.ptr, t);
}

#[test]
fn encode_le_gives_the_low_bytes_first() {
    assert_eq!(encode_le(0x0102_0304_0506_0708, 8), vec![8, 7, 6, 5, 4, 3, 2, 1]);
    assert_eq!(encode_le(0x0102_0304_0506_0708, 4), vec![8, 7, 6, 5]);
    assert_eq!(encode_le(0x1234, 2), 0x1234u16.to_le_bytes().to_vec());
    assert_eq!(encode_le(u64::MAX, 8), u64::MAX.to_le_bytes().to_vec());
    assert_eq!(encode_le(77, 0), Vec::<u8>::new());
}

#[test]
fn encode_scalar_matches_the_element_types() {
    assert_eq!(encode_scalar(TensorType::UInt8, &number(200.0)), Some(vec![200]));
    assert_eq!(encode_scalar(TensorType::Int8, &number(-2.0)), Some((-2i8).to_le_bytes().to_vec()));
    assert_eq!(
        encode_scalar(TensorType::Int16, &number(-300.0)),
        Some((-300i16).to_le_bytes().to_vec())
    );
    assert_eq!(
        encode_scalar(TensorType::Int32, &number(-70000.0)),
        Some((-70000i32).to_le_bytes().to_vec())
    );
    assert_eq!(
        encode_scalar(TensorType::Int64, &number(-5_000_000_000.0)),
        Some((-5_000_000_000i64).to_le_bytes().to_vec())
    );
    assert_eq!(
        encode_scalar(TensorType::Int64, &number(-1.0)),
        Some((-1i64).to_le_bytes().to_vec())
    );
    assert_eq!(
        encode_scalar(TensorType::Float32, &number(1.5)),
        Some(1.5f32.to_le_bytes().to_vec())
    );
    assert_eq!(
        encode_scalar(TensorType::Float64, &number(-2.25)),
        Some((-2.25f64).to_le_bytes().to_vec())
    );
    assert_eq!(encode_scalar(TensorType::Bool, &HostScalar::Boolean(true)), Some(vec![1]));
    assert_eq!(encode_scalar(TensorType::Bool, &HostScalar::Boolean(false)), Some(vec![0]));
}

#[test]
fn encode_scalar_truncates_and_saturates_like_a_cast() {
    for value in [0.0, 2.7, -2.7, 255.0, 256.0, 1e10, -1e10, f64::NAN, f64::INFINITY, -0.5] {
        assert_eq!(
            encode_scalar(TensorType::UInt8, &number(value)),
            Some((value as u8).to_le_bytes().to_vec())
        );
        assert_eq!(
            encode_scalar(TensorType::Int8, &number(value)),
            Some((value as i8).to_le_bytes().to_vec())
        );
        assert_eq!(
            encode_scalar(TensorType::Int16, &number(value)),
            Some((value as i16).to_le_bytes().to_vec())
        );
        assert_eq!(
            encode_scalar(TensorType::Int32, &number(value)),
            Some((value as i32).to_le_bytes().to_vec())
        );
        assert_eq!(
            encode_scalar(TensorType::Int64, &number(value)),
            Some((value as i64).to_le_bytes().to_vec())
        );
    }
    assert_eq!(
        encode_scalar(TensorType::Int64, &number(-1e30)),
        Some(i64::MIN.to_le_bytes().to_vec())
    );
}

#[test]
fn encode_scalar_refuses_the_wrong_kind() {
    assert_eq!(encode_scalar(TensorType::Bool, &number(1.0)), None);
    assert_eq!(encode_scalar(TensorType::UInt8, &HostScalar::Boolean(true)), None);
    assert_eq!(encode_scalar(TensorType::Float32, &HostScalar::Boolean(true)), None);
    assert_eq!(encode_scalar(TensorType::Float16, &number(1.0)), None);
    assert_eq!(encode_scalar(TensorType::QInt8, &number(1.0)), None);
}

#[test]
fn set_value_by_scalar_writes_one_float() {
    let mut t = Tensor::create(TensorType::Float32, &[2, 3], &[0u8; 24]).unwrap();
    set_value(&mut t, &[1, 2], &number(5.0)).unwrap();
    let floats: Vec<f32> = t
        .get_data()
        .chunks(4)
        .map(|c| f32::from_le_bytes([c[0], c[1], c[2], c[3]]))
        .collect();
    assert_eq!(floats, vec![0.0, 0.0, 0.0, 0.0, 0.0, 5.0]);
}

#[test]
fn set_value_by_scalar_refuses_the_wrong_kind_and_position() {
    let mut t = Tensor::create(TensorType::Bool, &[2], &[0, 0]).unwrap();
    assert_eq!(set_value(&mut t, &[0], &number(1.0)), Err(ETError::InvalidArgument));
    assert_eq!(
        set_value(&mut t, &[2], &HostScalar::Boolean(true)),
        Err(ETError::InvalidArgument)
    );
    assert_eq!(set_value(&mut t, &[1], &HostScalar::Boolean(true)), Ok(()));
    assert_eq!(t.get_data(), &[0, 1]);
}

#[test]
fn slice_by_selectors() {
    let t = grid();
    let s = slice(
        &t,
        &[SliceSelector::Range(Some(1), None), SliceSelector::Range(Some(1), Some(3))],
    )
    .unwrap();
    assert_eq!(s.sizes(), &[2, 2]);
    assert_eq!(s.get_data(), &[11, 12, 21, 22]);
}

#[test]
fn slice_by_a_single_index_keeps_the_axis() {
    let t = grid();
    let s = slice(&t, &[SliceSelector::Index(1), SliceSelector::All]).unwrap();
    assert_eq!(s.sizes(), &[1, 4]);
    assert_eq!(s.get_data(), &[10, 11, 12, 13]);
}

#[test]
fn slice_by_the_last_index_wraps() {
    let t = grid();
    // Index 2 stands for the range from 2 to 3, and 3 names index 0 of an
    // axis of length 3.
    let r = slice(&t, &[SliceSelector::Index(2)]);
    assert_eq!(r.err(), Some(ETError::InvalidArgument));
}

#[test]
fn slice_fills_missing_selectors_with_whole_axes() {
    let t = grid();
    assert_eq!(slice(&t, &[]).unwrap(), t);
    let s = slice(&t, &[SliceSelector::Range(None, Some(1))]).unwrap();
    assert_eq!(s.sizes(), &[1, 4]);
    assert_eq!(s.get_data(), &[0, 1, 2, 3]);
}

#[test]
fn slice_ignores_selectors_beyond_the_rank() {
    let t = grid();
    let s = slice(
        &t,
        &[SliceSelector::All, SliceSelector::All, SliceSelector::Index(7)],
    )
    .unwrap();
    assert_eq!(s, t);
}

#[test]
fn slice_refuses_an_index_without_successor() {
    let t = grid();
    let r = slice(&t, &[SliceSelector::All, SliceSelector::All, SliceSelector::Index(i32::MAX)]);
    assert_eq!(r.err(), Some(ETError::InvalidArgument));
}

#[test]
fn set_data_concat_and_reshape_as_the_host_calls_them() {
    let mut a = Tensor::create(TensorType::UInt8, &[1, 2], &[1, 2]).unwrap();
    assert_eq!(set_data(&mut a, &[5, 6]), Ok(()));
    assert_eq!(set_data(&mut a, &[5]), Err(ETError::InvalidArgument));
    let b = Tensor::create(TensorType::UInt8, &[1, 2], &[3, 4]).unwrap();
    let c = tensor_host::concat(&[&a, &b], 0).unwrap();
    assert_eq!(c.sizes(), &[2, 2]);
    assert_eq!(c.get_data(), &[5, 6, 3, 4]);
    assert_eq!(
        tensor_host::concat(&[&a, &b], 2).err(),
        Some(ETError::InvalidArgument)
    );
    let r = reshape(&c, &[4]).unwrap();
    assert_eq!(r.sizes(), &[4]);
    assert_eq!(r.get_data(), &[5, 6, 3, 4]);
    assert_eq!(reshape(&c, &[3]).err(), Some(ETError::InvalidArgument));
}
