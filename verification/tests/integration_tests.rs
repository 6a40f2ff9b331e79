use matrix_lib::{Matrix, NDArray};

#[test]
fn test_matrix_ndarray_interoperability() {
    // Create a matrix
    let matrix = Matrix::from_vec(vec![vec![1, 2, 3], vec![4, 5, 6]]).unwrap();

    // Convert to NDArray
    let nd_array = NDArray::from_matrix(&matrix);
    assert_eq!(nd_array.shape(), &[2, 3]);
    assert_eq!(nd_array.get(&[0, 0]), Some(1));
    assert_eq!(nd_array.get(&[1, 2]), Some(6));

    // Convert back to Matrix
    let matrix_back: Matrix = nd_array.to_matrix().unwrap();
    assert_eq!(matrix_back.dimensions(), (2, 3));
    assert_eq!(matrix_back.get(0, 0), Some(1));
    assert_eq!(matrix_back.get(1, 2), Some(6));
}

#[test]
fn test_ndarray_operations() {
    // Create 3D array
    let arr: NDArray = NDArray::zeros(&[2, 3, 4]);
    assert_eq!(arr.shape(), &[2, 3, 4]);
    assert_eq!(arr.ndim(), 3);
    assert_eq!(arr.size(), 24);

    // Test reshaping
    let reshaped = arr.reshape(&[6, 4]).unwrap();
    assert_eq!(reshaped.shape(), &[6, 4]);
    assert_eq!(reshaped.size(), 24);

    // Test flattening
    let flattened = arr.flatten();
    assert_eq!(flattened.shape(), &[24]);
    assert_eq!(flattened.ndim(), 1);
}

#[test]
fn test_ndarray_creation_methods() {
    // Test zeros
    let zeros: NDArray = NDArray::zeros(&[2, 3]);
    assert_eq!(zeros.get(&[0, 0]), Some(0));
    assert_eq!(zeros.get(&[1, 2]), Some(0));

    // Test ones
    let ones: NDArray = NDArray::ones(&[2, 3]);
    assert_eq!(ones.get(&[0, 0]), Some(1));
    assert_eq!(ones.get(&[1, 2]), Some(1));

    // Test from_vec
    let data = vec![1, 2, 3, 4, 5, 6];
    let arr = NDArray::from_vec(data, &[2, 3]).unwrap();
    assert_eq!(arr.get(&[0, 0]), Some(1));
    assert_eq!(arr.get(&[1, 2]), Some(6));
}

#[test]
fn test_error_handling() {
    // Test shape mismatch
    let data = vec![1, 2, 3, 4];
    let result = NDArray::from_vec(data, &[2, 3]);
    assert!(result.is_err());

    // Test invalid reshape
    let arr = NDArray::from_vec(vec![1, 2, 3, 4], &[2, 2]).unwrap();
    let result = arr.reshape(&[2, 3]);
    assert!(result.is_err());

    // Test dimension error for Matrix conversion
    let arr: NDArray = NDArray::zeros(&[2, 3, 4]);
    let result: Result<Matrix, _> = arr.to_matrix();
    assert!(result.is_err());
}

#[test]
fn test_library_usage_patterns() {
    // Test typical usage patterns
    let matrix: Matrix = Matrix::new(3, 3);
    let nd_array = NDArray::from_matrix(&matrix);

    // Test that we can work with both types
    assert_eq!(nd_array.ndim(), 2);

    // Test reshaping to different dimensions
    let reshaped = nd_array.reshape(&[9]).unwrap();
    assert_eq!(reshaped.ndim(), 1);
    assert_eq!(reshaped.size(), 9);
}
