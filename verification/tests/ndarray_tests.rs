use matrix_lib::{Matrix, NDArray};

#[test]
fn test_ndarray_creation() {
    let arr: NDArray = NDArray::new(&[2, 3, 4]);
    assert_eq!(arr.shape(), &[2, 3, 4]);
    assert_eq!(arr.ndim(), 3);
    assert_eq!(arr.size(), 24);
}

#[test]
fn test_stride_calculation() {
    let arr: NDArray = NDArray::new(&[2, 3, 4]);
    assert_eq!(arr.strides().to_vec(), vec![12, 4, 1]);
}

#[test]
fn test_flat_index() {
    let arr: NDArray = NDArray::new(&[2, 3, 4]);
    assert_eq!(arr.flat_index(&[1, 2, 3]), Some(23));
    assert_eq!(arr.flat_index(&[0, 0, 0]), Some(0));
    assert_eq!(arr.flat_index(&[2, 0, 0]), None); // Out of bounds
}

#[test]
fn test_get_set() {
    let mut arr: NDArray = NDArray::new(&[2, 3]);
    arr.set(&[1, 2], 42).unwrap();
    assert_eq!(arr.get(&[1, 2]), Some(42));
}

#[test]
fn test_reshape() {
    let arr: NDArray = NDArray::new(&[2, 3, 4]);
    let reshaped = arr.reshape(&[6, 4]).unwrap();
    assert_eq!(reshaped.shape(), &[6, 4]);
    assert_eq!(reshaped.size(), 24);
}

#[test]
fn test_from_matrix() {
    let matrix = Matrix::from_vec(vec![vec![1, 2, 3], vec![4, 5, 6]]).unwrap();

    let arr = NDArray::from_matrix(&matrix);
    assert_eq!(arr.shape(), &[2, 3]);
    assert_eq!(arr.get(&[0, 0]), Some(1));
    assert_eq!(arr.get(&[1, 2]), Some(6));
}

#[test]
fn test_to_matrix() {
    let arr = NDArray::from_vec(vec![1, 2, 3, 4, 5, 6], &[2, 3]).unwrap();
    let matrix: Matrix = arr.to_matrix().unwrap();
    assert_eq!(matrix.dimensions(), (2, 3));
    assert_eq!(matrix.get(0, 0), Some(1));
    assert_eq!(matrix.get(1, 2), Some(6));
}

#[test]
fn test_zeros_ones() {
    let zeros: NDArray = NDArray::zeros(&[2, 3]);
    assert_eq!(zeros.get(&[0, 0]), Some(0));

    let ones: NDArray = NDArray::ones(&[2, 3]);
    assert_eq!(ones.get(&[0, 0]), Some(1));
}

#[test]
fn test_flatten() {
    let arr = NDArray::from_vec(vec![1, 2, 3, 4, 5, 6], &[2, 3]).unwrap();
    let flattened = arr.flatten();
    assert_eq!(flattened.shape(), &[6]);
    assert_eq!(flattened.get(&[0]), Some(1));
    assert_eq!(flattened.get(&[5]), Some(6));
}
