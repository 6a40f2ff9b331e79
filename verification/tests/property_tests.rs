use matrix_lib::{Matrix, NDArray, NDArrayError};

#[test]
fn test_round_trip_array_to_matrix_and_back() {
    let arr = NDArray::from_vec(vec![9, 8, 7, 6], &[2, 2]).unwrap();
    let matrix = arr.to_matrix().unwrap();
    let back = NDArray::from_matrix(&matrix);
    assert_eq!(back, arr);
}

#[test]
fn test_round_trip_matrix_to_array_and_back() {
    let matrix = Matrix::from_vec(vec![vec![1, 2, 3], vec![4, 5, 6]]).unwrap();
    let arr = NDArray::from_matrix(&matrix);
    let back = arr.to_matrix().unwrap();
    assert_eq!(back, matrix);

    // The round trip also holds for a degenerate matrix with no rows.
    let empty: Matrix = Matrix::new(0, 3);
    let arr = NDArray::from_matrix(&empty);
    assert_eq!(arr.shape(), &[0, 3]);
    let back = arr.to_matrix().unwrap();
    assert_eq!(back, empty);
}

#[test]
fn test_reshape_preserves_flat_order() {
    let arr = NDArray::from_vec(vec![1, 2, 3, 4, 5, 6], &[2, 3]).unwrap();
    let reshaped = arr.reshape(&[3, 2]).unwrap();
    let flat_a = arr.flatten();
    let flat_b = reshaped.flatten();
    for i in 0..6 {
        assert_eq!(flat_b.get(&[i]), flat_a.get(&[i]));
    }
    assert_eq!(reshaped.get(&[2, 1]), Some(6));
}

#[test]
fn test_flatten_idempotence() {
    let arr = NDArray::from_vec(vec![5, 4, 3, 2, 1, 0], &[3, 2]).unwrap();
    let once = arr.flatten();
    let twice = once.flatten();
    assert_eq!(twice, once);
    assert_eq!(once.ndim(), 1);
    assert_eq!(once.size(), arr.size());
}

#[test]
fn test_stride_and_flat_index_scenario() {
    let arr: NDArray = NDArray::new(&[2, 3, 4]);
    assert_eq!(arr.strides(), &[12, 4, 1]);
    assert_eq!(arr.flat_index(&[1, 2, 3]), Some(23));
    assert_eq!(arr.flat_index(&[2, 0, 0]), None);
    // Wrong arity is also rejected.
    assert_eq!(arr.flat_index(&[1, 2]), None);
    assert_eq!(arr.get(&[1, 2]), None);
}

#[test]
fn test_matrix_addition_shape_mismatch() {
    let a = Matrix::from_vec(vec![vec![1, 2], vec![3, 4]]).unwrap();
    let b = Matrix::from_vec(vec![vec![1, 2], vec![3, 4], vec![5, 6]]).unwrap();
    assert!(a.add(b).is_err());
}

#[test]
fn test_matrix_multiplication_inner_dimension_mismatch() {
    let a = Matrix::from_vec(vec![vec![1, 2, 3], vec![4, 5, 6]]).unwrap();
    let b = Matrix::from_vec(vec![vec![1, 2], vec![3, 4]]).unwrap();
    assert!(a.mul(b).is_err());
}

#[test]
fn test_from_vec_error_values() {
    let empty: Vec<Vec<i64>> = vec![];
    assert_eq!(Matrix::from_vec(empty), Err("Matrix cannot be empty"));
    let ragged = vec![vec![1, 2], vec![3]];
    assert_eq!(Matrix::from_vec(ragged), Err("All rows must have the same length"));
}

#[test]
fn test_ndarray_error_values() {
    let bad = NDArray::from_vec(vec![1, 2, 3], &[2, 2]);
    assert_eq!(bad.err(), Some(NDArrayError::ShapeMismatch));

    let mut arr: NDArray = NDArray::new(&[2, 2]);
    assert_eq!(arr.set(&[2, 0], 1).err(), Some(NDArrayError::IndexOutOfBounds));
    assert_eq!(arr.set(&[0], 1).err(), Some(NDArrayError::IndexOutOfBounds));

    assert_eq!(arr.axis_size(0), Ok(2));
    assert_eq!(arr.axis_size(2).err(), Some(NDArrayError::DimensionError));

    let cube: NDArray = NDArray::new(&[2, 2, 2]);
    assert_eq!(cube.to_matrix().err(), Some(NDArrayError::DimensionError));

    // A zero extent is legal: extraction yields the degenerate 0x3 matrix.
    let no_rows: NDArray = NDArray::new(&[0, 3]);
    let degenerate = no_rows.to_matrix().unwrap();
    assert_eq!(degenerate.dimensions(), (0, 3));
}

#[test]
fn test_with_value_and_is_empty() {
    let arr = NDArray::with_value(&[2, 2], 7);
    assert_eq!(arr.get(&[0, 0]), Some(7));
    assert_eq!(arr.get(&[1, 1]), Some(7));
    assert!(!arr.is_empty());

    let empty: NDArray = NDArray::new(&[0, 5]);
    assert!(empty.is_empty());
    assert_eq!(empty.size(), 0);

    let scalar: NDArray = NDArray::with_value(&[], 3);
    assert_eq!(scalar.size(), 1);
    assert_eq!(scalar.get(&[]), Some(3));
}

#[test]
fn test_get_mut_and_flat_vec() {
    let mut arr = NDArray::from_vec(vec![1, 2, 3, 4], &[2, 2]).unwrap();
    *arr.get_mut(&[0, 1]).unwrap() = 9;
    assert_eq!(arr.get(&[0, 1]), Some(9));
    assert!(arr.get_mut(&[2, 0]).is_none());
    assert_eq!(arr.to_flat_vec(), vec![1, 9, 3, 4]);

    let mut m = Matrix::from_vec(vec![vec![1, 2], vec![3, 4]]).unwrap();
    *m.get_mut(1, 0).unwrap() = 7;
    assert_eq!(m.get(1, 0), Some(7));
    assert_eq!(m.get(0, 0), Some(1));
    assert!(m.get_mut(2, 0).is_none());
    assert!(m.get_mut(0, 2).is_none());
}

#[test]
fn test_matrix_row_and_col() {
    let m = Matrix::from_vec(vec![vec![1, 2, 3], vec![4, 5, 6]]).unwrap();
    assert_eq!(m.row(0), Some(vec![1, 2, 3]));
    assert_eq!(m.row(1), Some(vec![4, 5, 6]));
    assert_eq!(m.row(2), None);
    assert_eq!(m.col(0), Some(vec![1, 4]));
    assert_eq!(m.col(2), Some(vec![3, 6]));
    assert_eq!(m.col(3), None);
}

#[test]
fn test_matrix_set_out_of_bounds() {
    let mut m: Matrix = Matrix::new(2, 2);
    assert!(m.set(2, 0, 1).is_err());
    assert!(m.set(0, 2, 1).is_err());
    assert_eq!(m.get(0, 0), Some(0));
    assert_eq!(m.get(2, 0), None);
}

#[test]
fn test_reshape_to_higher_rank() {
    let arr = NDArray::from_vec(vec![1, 2, 3, 4, 5, 6, 7, 8], &[8]).unwrap();
    let cube = arr.reshape(&[2, 2, 2]).unwrap();
    assert_eq!(cube.get(&[1, 1, 1]), Some(8));
    assert_eq!(cube.get(&[0, 1, 0]), Some(3));
    assert_eq!(cube.strides(), &[4, 2, 1]);
}
