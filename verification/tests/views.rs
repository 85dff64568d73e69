use pop::matrix::{Matrix, Matrix2x3, MatrixVar, OperationError, VariableMatrix};
use pop::minor_matrix_view::MinorMatrixView;
use pop::row_matrix_view::RowMatrixView;
use pop::sub_matrix_view::SubMatrixView;
use pop::transposed_matrix_view::TransposedMatrixView;

#[test]
fn test_row_matrix_view_from_matrix() {
    let mut buf = MatrixVar::<f64>::new(2, 3);
    buf.set(0, 0, 1.0);

    let rows = RowMatrixView::from_matrix(&mut buf);
    assert_eq!(rows.rows(), 2);
    assert_eq!(rows.cols(), 3);
    assert_eq!(rows.get(0, 0), 1.0);
    assert_eq!(rows.get(0, 1), 0.0);
    assert_eq!(rows.get(0, 2), 0.0);
    assert_eq!(rows.get(1, 0), 0.0);
    assert_eq!(rows.get(0, 1), 0.0);
    assert_eq!(rows.get(0, 2), 0.0);
}

#[test]
fn test_row_matrix_view_swap() {
    let mut buf = MatrixVar::<f64>::new(2, 3);
    buf.set(0, 0, 1.0);

    let mut rows = RowMatrixView::from_matrix(&mut buf);
    rows.swap_rows(0, 1);
    assert_eq!(rows.rows(), 2);
    assert_eq!(rows.cols(), 3);
    assert_eq!(rows.get(0, 0), 0.0);
    assert_eq!(rows.get(0, 1), 0.0);
    assert_eq!(rows.get(0, 2), 0.0);
    assert_eq!(rows.get(1, 0), 1.0);
    assert_eq!(rows.get(0, 1), 0.0);
    assert_eq!(rows.get(0, 2), 0.0);
}

#[test]
fn row_matrix_view_writes_through_the_table() {
    let mut buf = MatrixVar::<f64>::from_vec(2, 2, vec![1.0, 2.0, 3.0, 4.0]).unwrap();
    {
        let mut rows = RowMatrixView::from_matrix(&mut buf);
        rows.swap_rows(0, 1);
        assert_eq!(rows.get(0, 1), 4.0);
        rows.set(0, 1, 40.0);
        assert_eq!(rows.get(0, 1), 40.0);
        assert_eq!(rows.get(1, 1), 2.0);
    }
    assert_eq!(buf.get(1, 1), 40.0);
    assert_eq!(buf.get(0, 1), 2.0);
}

#[test]
fn test_sub_matrix_view_too_few_rows() {
    let mut buf = MatrixVar::<f64>::from_vec(2, 3, vec![0.0, 1.0, 2.0, 3.0, 4.0, 5.0]).unwrap();
    let view = SubMatrixView::from_matrix(&mut buf, 1, 3, 1, 1).unwrap_err();
    assert_eq!(view, OperationError::BadDim);
}

#[test]
fn test_sub_matrix_view_too_few_cols() {
    let mut buf = MatrixVar::<f64>::from_vec(2, 3, vec![0.0, 1.0, 2.0, 3.0, 4.0, 5.0]).unwrap();
    let view = SubMatrixView::from_matrix(&mut buf, 1, 1, 1, 3).unwrap_err();
    assert_eq!(view, OperationError::BadDim);
}

#[test]
fn test_sub_matrix_get() {
    let mut buf = MatrixVar::<f64>::from_vec(
        3,
        4,
        vec![0.0, 1.0, 2.0, 3.0, 4.0, 5.0, 6.0, 7.0, 8.0, 9.0, 10.0, 11.0],
    )
    .unwrap();
    let view = SubMatrixView::from_matrix(&mut buf, 1, 2, 2, 2).unwrap();

    assert_eq!(view.rows(), 2);
    assert_eq!(view.cols(), 2);
    assert_eq!(view.get(0, 0), 6.0);
    assert_eq!(view.get(0, 1), 7.0);
    assert_eq!(view.get(1, 0), 10.0);
    assert_eq!(view.get(1, 1), 11.0);
}

#[test]
fn test_sub_matrix_set() {
    let mut buf = MatrixVar::<f64>::from_vec(
        3,
        4,
        vec![0.0, 1.0, 2.0, 3.0, 4.0, 5.0, 6.0, 7.0, 8.0, 9.0, 10.0, 11.0],
    )
    .unwrap();
    let mut view = SubMatrixView::from_matrix(&mut buf, 1, 2, 2, 2).unwrap();

    view.set(1, 1, 13.0);
    assert_eq!(buf.get(2, 3), 13.0);
}

#[test]
fn sub_matrix_view_accepts_the_whole_matrix_and_rejects_overflow() {
    let mut buf = MatrixVar::<f64>::new(2, 3);
    assert!(SubMatrixView::from_matrix(&mut buf, 0, 2, 0, 3).is_ok());
    assert!(SubMatrixView::from_matrix(&mut buf, 2, 0, 3, 0).is_ok());
    assert_eq!(
        SubMatrixView::from_matrix(&mut buf, usize::MAX, 2, 0, 1).unwrap_err(),
        OperationError::BadDim
    );
    assert_eq!(
        SubMatrixView::from_matrix(&mut buf, 0, 1, 1, usize::MAX).unwrap_err(),
        OperationError::BadDim
    );
}

#[test]
fn transposed_matrix_view() {
    let mut matrix = Matrix2x3::<f64>::from_values(0.0, 1.0, 2.0, 3.0, 4.0, 5.0);
    let mut view = TransposedMatrixView::from_matrix(&mut matrix);

    assert_eq!(3, view.rows());
    assert_eq!(2, view.cols());

    assert_eq!(0.0, view.get(0, 0));
    assert_eq!(1.0, view.get(1, 0));
    assert_eq!(2.0, view.get(2, 0));
    assert_eq!(3.0, view.get(0, 1));
    assert_eq!(4.0, view.get(1, 1));
    assert_eq!(5.0, view.get(2, 1));

    view.set(2, 1, 15.0);
    assert_eq!(15.0, matrix.get(1, 2));
}

#[test]
fn minor_matrix_view_leaves_out_one_row_and_one_column() {
    let mut buf = MatrixVar::<f64>::from_vec(
        3,
        4,
        vec![0.0, 1.0, 2.0, 3.0, 4.0, 5.0, 6.0, 7.0, 8.0, 9.0, 10.0, 11.0],
    )
    .unwrap();
    {
        let mut view = MinorMatrixView::from_matrix(&mut buf, 1, 2).unwrap();
        assert_eq!(view.rows(), 2);
        assert_eq!(view.cols(), 3);
        assert_eq!(view.get(0, 0), 0.0);
        assert_eq!(view.get(0, 1), 1.0);
        assert_eq!(view.get(0, 2), 3.0);
        assert_eq!(view.get(1, 0), 8.0);
        assert_eq!(view.get(1, 1), 9.0);
        assert_eq!(view.get(1, 2), 11.0);
        view.set(1, 2, 42.0);
        view.set(0, 0, 7.0);
    }
    assert_eq!(buf.get(2, 3), 42.0);
    assert_eq!(buf.get(0, 0), 7.0);
    assert_eq!(buf.get(1, 2), 6.0);
    assert_eq!(
        MinorMatrixView::from_matrix(&mut buf, 3, 0).unwrap_err(),
        OperationError::BadDim
    );
    assert_eq!(
        MinorMatrixView::from_matrix(&mut buf, 0, 4).unwrap_err(),
        OperationError::BadDim
    );
}
