use executorch_node::eterror::ETError;
use executorch_node::sampler::last_scores;
use executorch_node::tensor::Tensor;
use executorch_node::tensor_type::TensorType;

fn scores(shape: &[i32], values: &[f32]) -> Tensor {
    let mut bytes = Vec::new();
    for v in values {
        bytes.extend_from_slice(&v.to_le_bytes());
    }
    Tensor::create(TensorType::Float32, shape, &bytes).unwrap()
}

fn floats(bytes: &[u8]) -> Vec<f32> {
    bytes
        .chunks(4)
        .map(|c| f32::from_le_bytes([c[0], c[1], c[2], c[3]]))
        .collect()
}

#[test]
fn last_scores_are_the_last_row() {
    let t = scores(&[1, 3, 2], &[1.0, 2.0, 3.0, 4.0, 5.0, 6.0]);
    assert_eq!(floats(last_scores(&t).unwrap()), vec![5.0, 6.0]);
    let one = scores(&[1, 1, 3], &[7.0, 8.0, 9.0]);
    assert_eq!(floats(last_scores(&one).unwrap()), vec![7.0, 8.0, 9.0]);
}

#[test]
fn last_scores_of_empty_rows_are_empty() {
    let t = scores(&[1, 4, 0], &[]);
    assert_eq!(last_scores(&t).unwrap().len(), 0);
    let none = scores(&[1, 0, 0], &[]);
    assert_eq!(last_scores(&none).unwrap().len(), 0);
}

#[test]
fn last_scores_need_single_precision_and_one_batch() {
    let ints = Tensor::create(TensorType::Int32, &[1, 1, 1], &[0u8; 4]).unwrap();
    assert_eq!(last_scores(&ints).err(), Some(ETError::InvalidArgument));
    let flat = scores(&[1, 2], &[1.0, 2.0]);
    assert_eq!(last_scores(&flat).err(), Some(ETError::InvalidArgument));
    let two = scores(&[2, 1, 1], &[1.0, 2.0]);
    assert_eq!(last_scores(&two).err(), Some(ETError::InvalidArgument));
    let no_position = scores(&[1, 0, 3], &[]);
    assert_eq!(last_scores(&no_position).err(), Some(ETError::InvalidArgument));
}
