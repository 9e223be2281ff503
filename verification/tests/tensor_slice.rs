use executorch_node::eterror::ETError;
use executorch_node::tensor::Tensor;
use executorch_node::tensor_slice::unravel;
use executorch_node::tensor_type::TensorType;

fn int32_bytes(values: &[i32]) -> Vec<u8> {
    let mut out = Vec::new();
    for v in values {
        out.extend_from_slice(&v.to_le_bytes());
    }
    out
}

fn grid() -> Tensor {
    // 3 rows of 4: element (r, c) holds 10 * r + c.
    let mut bytes = Vec::new();
    for r in 0..3u8 {
        for c in 0..4u8 {
            bytes.push(10 * r + c);
        }
    }
    Tensor::create(TensorType::UInt8, &[3, 4], &bytes).unwrap()
}

#[test]
fn slice_middle_of_a_vector() {
    let t = Tensor::create(TensorType::Int32, &[4], &int32_bytes(&[10, 20, 30, 40])).unwrap();
    let s = t.slice(vec![(Some(1), Some(3))]).unwrap();
    assert_eq!(s.sizes(), &[2]);
    assert_eq!(s.dtype(), TensorType::Int32);
    assert_eq!(s.get_data(), &int32_bytes(&[20, 30])[..]);
}

#[test]
fn slice_without_bounds_gives_the_tensor() {
    let t = grid();
    let s = t.slice(vec![(None, None), (None, None)]).unwrap();
    assert_eq!(s, t);
    let s = t.slice(vec![(Some(0), None), (None, None)]).unwrap();
    assert_eq!(s, t);
}

#[test]
fn slice_takes_a_window_in_row_major_order() {
    let t = grid();
    let s = t.slice(vec![(Some(1), None), (Some(1), Some(3))]).unwrap();
    assert_eq!(s.sizes(), &[2, 2]);
    assert_eq!(s.get_data(), &[11, 12, 21, 22]);
    let s = t.slice(vec![(None, Some(2)), (Some(2), None)]).unwrap();
    assert_eq!(s.sizes(), &[2, 2]);
    assert_eq!(s.get_data(), &[2, 3, 12, 13]);
}

#[test]
fn slice_of_three_axes() {
    let bytes: Vec<u8> = (0..24).collect();
    let t = Tensor::create(TensorType::UInt8, &[2, 3, 4], &bytes).unwrap();
    let s = t
        .slice(vec![(Some(1), None), (Some(0), Some(2)), (Some(1), Some(3))])
        .unwrap();
    assert_eq!(s.sizes(), &[1, 2, 2]);
    assert_eq!(s.get_data(), &[13, 14, 17, 18]);
}

#[test]
fn slice_bound_equal_to_the_length_wraps_to_zero() {
    let t = grid();
    // The end 4 on an axis of length 4 names index 0, so nothing is selected.
    let s = t.slice(vec![(None, None), (Some(0), Some(4))]).unwrap();
    assert_eq!(s.sizes(), &[3, 0]);
    assert_eq!(s.get_data(), &[] as &[u8]);
    // With a start after index 0 the range starts after it ends.
    let r = t.slice(vec![(None, None), (Some(1), Some(4))]);
    assert_eq!(r.err(), Some(ETError::InvalidArgument));
}

#[test]
fn slice_negative_bounds_count_from_the_end() {
    let t = grid();
    let s = t.slice(vec![(None, None), (Some(-2), None)]).unwrap();
    assert_eq!(s.sizes(), &[3, 2]);
    assert_eq!(s.get_data(), &[2, 3, 12, 13, 22, 23]);
    let s = t.slice(vec![(Some(-3), Some(-1)), (Some(-4), Some(-3))]).unwrap();
    assert_eq!(s.sizes(), &[2, 1]);
    assert_eq!(s.get_data(), &[0, 10]);
    let s = t.slice(vec![(Some(3), Some(5)), (None, None)]).unwrap();
    assert_eq!(s.sizes(), &[2, 4]);
    assert_eq!(s.get_data(), &[0, 1, 2, 3, 10, 11, 12, 13]);
}

#[test]
fn slice_rejects_a_start_after_the_end() {
    let t = grid();
    let r = t.slice(vec![(Some(2), Some(1)), (None, None)]);
    assert_eq!(r.err(), Some(ETError::InvalidArgument));
}

#[test]
fn slice_rejects_missing_ranges_and_ignores_further_ones() {
    let t = grid();
    assert_eq!(t.slice(vec![(None, None)]).err(), Some(ETError::InvalidArgument));
    assert_eq!(t.slice(vec![]).err(), Some(ETError::InvalidArgument));
    let s = t
        .slice(vec![(None, None), (None, None), (Some(9), Some(1))])
        .unwrap();
    assert_eq!(s, t);
}

#[test]
fn slice_of_an_empty_axis() {
    let t = Tensor::create(TensorType::UInt8, &[2, 0], &[]).unwrap();
    let s = t.slice(vec![(Some(1), None), (None, None)]).unwrap();
    assert_eq!(s.sizes(), &[1, 0]);
    let r = t.slice(vec![(None, None), (Some(0), None)]);
    assert_eq!(r.err(), Some(ETError::InvalidArgument));
    let r = t.slice(vec![(None, None), (None, Some(0))]);
    assert_eq!(r.err(), Some(ETError::InvalidArgument));
}

#[test]
fn slice_of_rank_zero() {
    let t = Tensor::create(TensorType::UInt8, &[], &[4]).unwrap();
    let s = t.slice(vec![]).unwrap();
    assert_eq!(s, t);
}

#[test]
fn slice_twice_composes() {
    let t = grid();
    let once = t.slice(vec![(Some(1), None), (None, None)]).unwrap();
    let twice = once.slice(vec![(None, None), (Some(1), Some(2))]).unwrap();
    assert_eq!(twice.sizes(), &[2, 1]);
    assert_eq!(twice.get_data(), &[11, 21]);
}

#[test]
fn unravel_inverts_the_flat_index() {
    let mut pos = vec![0; 3];
    unravel(&[2, 3, 4], 23, &mut pos);
    assert_eq!(pos, vec![1, 2, 3]);
    unravel(&[2, 3, 4], 12, &mut pos);
    assert_eq!(pos, vec![1, 0, 0]);
    unravel(&[2, 3, 4], 5, &mut pos);
    assert_eq!(pos, vec![0, 1, 1]);
    let mut none: Vec<i32> = vec![];
    unravel(&[], 0, &mut none);
    assert_eq!(none, Vec::<i32>::new());
}
