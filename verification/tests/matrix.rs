use pop::matrix::{
    FixedMatrix, Matrix, Matrix2x3, Matrix3x3, MatrixOps, MatrixVar, OperationError,
    VariableMatrix,
};

#[test]
fn test_new_variable_matrix() {
    let buf = MatrixVar::<f64>::new(2, 3);
    assert_eq!(buf.rows(), 2);
    assert_eq!(buf.cols(), 3);
    assert_eq!(buf.get(0, 0), 0.0);
    assert_eq!(buf.get(0, 1), 0.0);
    assert_eq!(buf.get(0, 2), 0.0);
    assert_eq!(buf.get(1, 0), 0.0);
    assert_eq!(buf.get(0, 1), 0.0);
    assert_eq!(buf.get(0, 2), 0.0);
}

#[test]
fn test_variable_matrix_from_vec() {
    let buf = MatrixVar::<f64>::from_vec(2, 3, vec![0.0, 1.0, 2.0, 3.0, 4.0, 5.0]).unwrap();
    assert_eq!(buf.rows(), 2);
    assert_eq!(buf.cols(), 3);
    assert_eq!(buf.get(0, 0), 0.0);
    assert_eq!(buf.get(0, 1), 1.0);
    assert_eq!(buf.get(0, 2), 2.0);
    assert_eq!(buf.get(1, 0), 3.0);
    assert_eq!(buf.get(1, 1), 4.0);
    assert_eq!(buf.get(1, 2), 5.0);
}

#[test]
fn test_variable_matrix_from_vec_wrong_size() {
    assert_eq!(
        MatrixVar::<f64>::from_vec(2, 3, vec![1.0]).unwrap_err(),
        OperationError::BadDim
    );
}

#[test]
fn test_variable_matrix_from_matrix() {
    let mut buf = MatrixVar::<f64>::new(2, 3);
    buf.set(0, 0, 1.0);

    let buf2 = MatrixVar::<f64>::from_matrix(&buf);
    assert_eq!(buf2.rows(), 2);
    assert_eq!(buf2.cols(), 3);
    assert_eq!(buf2.get(0, 0), 1.0);
    assert_eq!(buf2.get(0, 1), 0.0);
    assert_eq!(buf2.get(0, 2), 0.0);
    assert_eq!(buf2.get(1, 0), 0.0);
    assert_eq!(buf2.get(0, 1), 0.0);
    assert_eq!(buf2.get(0, 2), 0.0);
}

#[test]
fn matrix_assign_add_and_sub() {
    let mut a = MatrixVar::<f64>::from_vec(2, 2, vec![1.0, 2.0, 3.0, 4.0]).unwrap();
    let b = MatrixVar::<f64>::from_vec(2, 2, vec![10.0, 20.0, 30.0, 40.0]).unwrap();
    assert_eq!(a.assign_add(&b), Ok(()));
    assert_eq!(a, MatrixVar::<f64>::from_vec(2, 2, vec![11.0, 22.0, 33.0, 44.0]).unwrap());
    assert_eq!(a.assign_sub(&b), Ok(()));
    assert_eq!(a, MatrixVar::<f64>::from_vec(2, 2, vec![1.0, 2.0, 3.0, 4.0]).unwrap());
    let c = MatrixVar::<f64>::new(3, 2);
    assert_eq!(a.assign_add(&c), Err(OperationError::BadDim));
    assert_eq!(a.assign_sub(&c), Err(OperationError::BadDim));
    assert_eq!(a.assign_matrix(&c), Err(OperationError::BadDim));
}

#[test]
fn matrix_scalar_operations() {
    let mut a = MatrixVar::<f64>::from_vec(2, 2, vec![1.0, 2.0, 3.0, 4.0]).unwrap();
    a.assign_mul_scalar(3.0);
    assert_eq!(a, MatrixVar::<f64>::from_vec(2, 2, vec![3.0, 6.0, 9.0, 12.0]).unwrap());
    a.assign_div_scalar(6.0);
    assert_eq!(a, MatrixVar::<f64>::from_vec(2, 2, vec![0.5, 1.0, 1.5, 2.0]).unwrap());
}

#[test]
fn matrix_product() {
    let a = Matrix2x3::<f64>::from_values(1.0, 2.0, 3.0, 4.0, 5.0, 6.0);
    let b = Matrix3x3::<f64>::from_values(1.0, 0.0, 2.0, 0.0, 1.0, 0.0, 3.0, 0.0, 1.0);
    let mut c = Matrix2x3::<f64>::new();
    assert_eq!(c.assign_mul_matrices(&a, &b), Ok(()));
    assert_eq!(c, Matrix2x3::from_values(10.0, 2.0, 5.0, 22.0, 5.0, 14.0));
    // the product is not defined the other way round, and the target stays as it is
    assert_eq!(c.assign_mul_matrices(&b, &a), Err(OperationError::BadDim));
    assert_eq!(c, Matrix2x3::from_values(10.0, 2.0, 5.0, 22.0, 5.0, 14.0));
    let mut d = Matrix3x3::<f64>::new();
    assert_eq!(d.assign_mul_matrices(&a, &b), Err(OperationError::BadDim));
    assert_eq!(d.assign_mul_matrices(&b, &b), Ok(()));
    assert_eq!(d, Matrix3x3::from_values(7.0, 0.0, 4.0, 0.0, 1.0, 0.0, 6.0, 0.0, 7.0));
    let mut e = MatrixVar::<f64>::new(0, 0);
    let empty = MatrixVar::<f64>::new(0, 5);
    let other = MatrixVar::<f64>::new(5, 0);
    assert_eq!(e.assign_mul_matrices(&empty, &other), Ok(()));
    let mut zero = MatrixVar::<f64>::from_vec(1, 1, vec![9.0]).unwrap();
    let row = MatrixVar::<f64>::new(1, 0);
    let col = MatrixVar::<f64>::new(0, 1);
    assert_eq!(zero.assign_mul_matrices(&row, &col), Ok(()));
    assert_eq!(zero.get(0, 0), 0.0);
}

#[test]
fn determinant_of_small_matrices() {
    assert_eq!(MatrixVar::<f64>::new(0, 0).det(), Err(OperationError::BadDim));
    assert_eq!(Matrix2x3::<f64>::from_values(1.0, 2.0, 3.0, 4.0, 5.0, 6.0).det(), Err(OperationError::BadDim));
    assert_eq!(MatrixVar::<f64>::from_vec(1, 1, vec![-7.5]).unwrap().det(), Ok(-7.5));
    assert_eq!(MatrixVar::<f64>::from_vec(2, 2, vec![1.0, 2.0, 3.0, 4.0]).unwrap().det(), Ok(-2.0));
    assert_eq!(MatrixVar::<f64>::from_vec(2, 2, vec![2.0, 4.0, 1.0, 2.0]).unwrap().det(), Ok(0.0));
    // larger matrices are not expanded
    assert_eq!(Matrix3x3::<f64>::from_values(2.0, 0.0, 0.0, 0.0, 2.0, 0.0, 0.0, 0.0, 2.0).det(), Ok(0.0));
}

#[test]
fn fixed_matrices_from_arrays() {
    let mut a = Matrix2x3::<f64>::new();
    assert_eq!((a.rows(), a.cols()), (2, 3));
    assert_eq!(a, Matrix2x3::from_array([0.0; 6]));
    a.set_from_array(&[1.0, 2.0, 3.0, 4.0, 5.0, 6.0]);
    assert_eq!(a, Matrix2x3::from_values(1.0, 2.0, 3.0, 4.0, 5.0, 6.0));
    assert_eq!((a.get(0, 2), a.get(1, 0)), (3.0, 4.0));
    a.set(1, 2, 60.0);
    assert_eq!(a, Matrix2x3::from_array([1.0, 2.0, 3.0, 4.0, 5.0, 60.0]));
    let mut b = Matrix3x3::<f32>::new();
    assert_eq!((b.rows(), b.cols()), (3, 3));
    assert_eq!(b, Matrix3x3::from_array([0.0; 9]));
    b.set_from_array(&[1.0, 2.0, 3.0, 4.0, 5.0, 6.0, 7.0, 8.0, 9.0]);
    assert_eq!(b, Matrix3x3::from_values(1.0, 2.0, 3.0, 4.0, 5.0, 6.0, 7.0, 8.0, 9.0));
    assert_eq!((b.get(0, 2), b.get(2, 0), b.get(2, 2)), (3.0, 7.0, 9.0));
    b.set(2, 1, 80.0);
    assert_eq!(b.get(2, 1), 80.0);
    assert_eq!(b.get(1, 2), 6.0);
}

#[test]
fn assign_vec_reads_row_by_row() {
    let mut a = MatrixVar::<f64>::new(3, 2);
    assert_eq!(a.assign_vec(vec![1.0, 2.0, 3.0, 4.0, 5.0]), Err(OperationError::BadDim));
    assert_eq!(a.get(2, 1), 0.0);
    assert_eq!(a.assign_vec(vec![1.0, 2.0, 3.0, 4.0, 5.0, 6.0]), Ok(()));
    assert_eq!((a.get(0, 1), a.get(1, 0), a.get(2, 1)), (2.0, 3.0, 6.0));
    let mut empty = MatrixVar::<f64>::new(0, 7);
    assert_eq!(empty.assign_vec(vec![]), Ok(()));
    assert_eq!(empty.assign_vec(vec![1.0]), Err(OperationError::BadDim));
}
