use pop::matrix::{Matrix2x3, Matrix3x3};
use pop::vector::{
    FixedVector, OperationError, VariableVector, Vec2, Vec3, Vector, Vector2, Vector3, VectorOps,
    VectorVar,
};

#[test]
fn new_variable_vector() {
    let vector = VectorVar::<f64>::new(2);
    assert_eq!(2, vector.dim());
    assert_eq!(0.0, vector.get(0));
    assert_eq!(0.0, vector.get(1));
}

#[test]
fn vector_buf_from_vec() {
    let vector = VectorVar::<f64>::from_vec(vec![0.0, 1.0, 2.0]);
    assert_eq!(3, vector.dim());
    assert_eq!(0.0, vector.get(0));
    assert_eq!(1.0, vector.get(1));
    assert_eq!(2.0, vector.get(2));
}

#[test]
fn add_bad_dim() {
    let mut first = VectorVar::<f64>::new(3);
    let second = VectorVar::<f64>::new(2);
    assert_eq!(OperationError::BadDim, first.assign_add(&second).unwrap_err());
}

#[test]
fn add() {
    let mut first = VectorVar::<f64>::from_vec(vec![1.0, 2.0]);
    let second = VectorVar::<f64>::from_vec(vec![1.0, 3.0]);
    first.assign_add(&second).unwrap();
    assert_eq!(2, first.dim());
    assert_eq!(2.0, first.get(0));
    assert_eq!(5.0, first.get(1));
}

#[test]
fn sub_bad_dim() {
    let mut first = VectorVar::<f64>::new(3);
    let second = VectorVar::<f64>::new(2);
    assert_eq!(OperationError::BadDim, first.assign_sub(&second).unwrap_err());
}

#[test]
fn sub() {
    let mut first = VectorVar::<f64>::from_vec(vec![1.0, 2.0]);
    let second = VectorVar::<f64>::from_vec(vec![1.0, 3.0]);
    first.assign_sub(&second).unwrap();
    assert_eq!(2, first.dim());
    assert_eq!(0.0, first.get(0));
    assert_eq!(-1.0, first.get(1));
}

#[test]
fn mul() {
    let mut first = VectorVar::<f64>::from_vec(vec![1.0, 2.0]);
    let second = 2.0;
    first.assign_mul_scalar(second);
    assert_eq!(2, first.dim());
    assert_eq!(2.0, first.get(0));
    assert_eq!(4.0, first.get(1));
}

#[test]
fn div() {
    let mut first = VectorVar::<f64>::from_vec(vec![1.0, 2.0]);
    let second = 2.0;
    first.assign_div_scalar(second);
    assert_eq!(2, first.dim());
    assert_eq!(0.5, first.get(0));
    assert_eq!(1.0, first.get(1));
}

#[test]
fn len_squared() {
    let first = VectorVar::<f64>::from_vec(vec![4.0, 3.0]);
    assert_eq!(25.0, first.len_squared());
}

#[test]
fn len() {
    let first = VectorVar::<f64>::from_vec(vec![4.0, 3.0]);
    assert_eq!(5.0, first.len(&f64::sqrt));
}

#[test]
fn scalar_product() {
    let first = VectorVar::<f64>::from_vec(vec![4.0, 3.0]);
    let second = VectorVar::<f64>::from_vec(vec![2.0, 5.0]);

    assert_eq!(23.0, first.scalar_product(&second));
}

#[test]
fn assign_vec_checks_the_dimension() {
    let mut v = VectorVar::<f64>::new(2);
    assert_eq!(v.assign_vec(&vec![1.0, 2.0, 3.0]), Err(OperationError::BadDim));
    assert_eq!(v.get(0), 0.0);
    assert_eq!(v.assign_vec(&vec![1.0, 2.0]), Ok(()));
    assert_eq!(v.get(1), 2.0);
}

#[test]
fn assign_neg_negates_every_entry() {
    let mut v = VectorVar::<f64>::from_vec(vec![1.0, -2.0, 0.5]);
    v.assign_neg();
    assert_eq!(v, VectorVar::<f64>::from_vec(vec![-1.0, 2.0, -0.5]));
}

#[test]
fn assign_mul_matrix_multiplies_rows_by_the_vector() {
    let m = Matrix2x3::<f64>::from_values(1.0, 2.0, 3.0, 4.0, 5.0, 6.0);
    let v = VectorVar::<f64>::from_vec(vec![1.0, 10.0, 100.0]);
    let mut out = VectorVar::<f64>::new(2);
    assert_eq!(out.assign_mul_matrix(&m, &v), Ok(()));
    assert_eq!(out, VectorVar::<f64>::from_vec(vec![321.0, 654.0]));
    let mut wrong = VectorVar::<f64>::new(3);
    assert_eq!(wrong.assign_mul_matrix(&m, &v), Err(OperationError::BadDim));
    let short = VectorVar::<f64>::new(2);
    assert_eq!(out.assign_mul_matrix(&m, &short), Err(OperationError::BadDim));
    let identity = Matrix3x3::<f64>::from_values(1.0, 0.0, 0.0, 0.0, 1.0, 0.0, 0.0, 0.0, 1.0);
    let mut same = Vec3::<f64>::new();
    assert_eq!(same.assign_mul_matrix(&identity, &Vec3::from_values(7.0, 8.0, 9.0)), Ok(()));
    assert_eq!(same, Vec3::from_values(7.0, 8.0, 9.0));
}

#[test]
fn fixed_vectors_have_named_coordinates() {
    let mut p = Vec2::<f64>::new();
    assert_eq!((p.dim(), p.get_x(), p.get_y()), (2, 0.0, 0.0));
    p.set_x(1.5);
    p.set_y(-2.5);
    assert_eq!(p, Vec2::from_values(1.5, -2.5));
    assert_eq!(p, Vec2::from_array([1.5, -2.5]));
    let mut q = Vec3::<f64>::new();
    assert_eq!(q.dim(), 3);
    q.set_x(1.0);
    q.set_y(2.0);
    q.set_z(3.0);
    assert_eq!((q.get_x(), q.get_y(), q.get_z()), (1.0, 2.0, 3.0));
    assert_eq!(q, Vec3::from_array([1.0, 2.0, 3.0]));
}
