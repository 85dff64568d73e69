use pop::linear::{
    abs_pivot_value, eliminate_col, find_pivot, solve_from_matrix, solve_from_row_matrix_view,
    triangulate_upper, SolveError,
};
use pop::matrix::{Matrix, MatrixVar, VariableMatrix};
use pop::row_matrix_view::RowMatrixView;

#[test]
fn test_solve_zero_size_system() {
    let mut buf = MatrixVar::<f64>::new(0, 0);
    assert_eq!(solve_from_matrix(&mut buf), Ok(Vec::new()));
}

#[test]
fn test_solve_too_few_rows() {
    let mut buf = MatrixVar::<f64>::new(2, 4);
    assert_eq!(solve_from_matrix(&mut buf), Err(SolveError::NoUniqueSolution));
}

#[test]
fn test_solve_system() {
    let mut sys = MatrixVar::<f64>::new(3, 4);
    sys.set(0, 0, 2.0);
    sys.set(0, 1, -3.0);
    sys.set(0, 2, 1.0);
    sys.set(0, 3, 0.0);
    sys.set(1, 0, -1.0);
    sys.set(1, 1, 6.0);
    sys.set(1, 2, 2.0);
    sys.set(1, 3, -26.0);
    sys.set(2, 0, -1.0);
    sys.set(2, 1, -1.0);
    sys.set(2, 2, -1.0);
    sys.set(2, 3, 10.0);

    assert_eq!(solve_from_matrix(&mut sys), Ok(vec![2.0, 3.0, 5.0]));
}

#[test]
fn test_solve_permutated_system() {
    let mut sys = MatrixVar::<f64>::new(3, 4);
    sys.set(0, 0, -1.0);
    sys.set(0, 1, -1.0);
    sys.set(0, 2, -1.0);
    sys.set(0, 3, 10.0);
    sys.set(1, 0, -1.0);
    sys.set(1, 1, 6.0);
    sys.set(1, 2, 2.0);
    sys.set(1, 3, -26.0);
    sys.set(2, 0, 2.0);
    sys.set(2, 1, -3.0);
    sys.set(2, 2, 1.0);
    sys.set(2, 3, 0.0);

    assert_eq!(solve_from_matrix(&mut sys), Ok(vec![2.0, 3.0, 5.0]));
}

#[test]
fn test_solve_no_unique_solution() {
    let mut sys = MatrixVar::<f64>::new(3, 4);
    sys.set(0, 0, -1.0);
    sys.set(0, 1, -1.0);
    sys.set(0, 2, -1.0);
    sys.set(0, 3, 10.0);
    sys.set(1, 0, -1.0);
    sys.set(1, 1, 6.0);
    sys.set(1, 2, 2.0);
    sys.set(1, 3, -26.0);
    sys.set(2, 0, -3.0);
    sys.set(2, 1, 4.0);
    sys.set(2, 2, 0.0);
    sys.set(2, 3, -6.0);

    assert_eq!(solve_from_matrix(&mut sys), Err(SolveError::NoUniqueSolution));
}

#[test]
fn pivot_is_the_cell_of_greatest_magnitude() {
    assert_eq!(abs_pivot_value(-3.5), 3.5);
    assert_eq!(abs_pivot_value(3.5), 3.5);
    assert_eq!(abs_pivot_value(0.0), 0.0);
    let mut m = MatrixVar::<f64>::from_vec(3, 2, vec![1.0, 0.0, -5.0, 0.0, 5.0, 0.0]).unwrap();
    let mut view = RowMatrixView::from_matrix(&mut m);
    // of the two cells of magnitude 5 the first one is taken
    assert!(find_pivot(&mut view, 0, 0));
    assert_eq!((view.get(0, 0), view.get(1, 0), view.get(2, 0)), (-5.0, 1.0, 5.0));
    // from the second row on, the last row holds the pivot
    assert!(find_pivot(&mut view, 1, 0));
    assert_eq!((view.get(0, 0), view.get(1, 0), view.get(2, 0)), (-5.0, 5.0, 1.0));
    // a column of zeros has none, and there are no rows after the last
    assert!(!find_pivot(&mut view, 0, 1));
    assert!(!find_pivot(&mut view, 3, 0));
    assert_eq!((view.get(0, 0), view.get(1, 0), view.get(2, 0)), (-5.0, 5.0, 1.0));
}

#[test]
fn elimination_clears_the_column_below_the_pivot() {
    let mut m = MatrixVar::<f64>::from_vec(
        3,
        3,
        vec![2.0, 1.0, 4.0, 4.0, 3.0, 1.0, 0.0, 5.0, 6.0],
    )
    .unwrap();
    {
        let mut view = RowMatrixView::from_matrix(&mut m);
        eliminate_col(&mut view, 0, 0);
    }
    // second row: pivot row times 4 less the row times 2; the third row begins with zero
    assert_eq!(
        m,
        MatrixVar::<f64>::from_vec(3, 3, vec![2.0, 1.0, 4.0, 0.0, -2.0, 14.0, 0.0, 5.0, 6.0]).unwrap()
    );
    {
        let mut view = RowMatrixView::from_matrix(&mut m);
        eliminate_col(&mut view, 1, 1);
    }
    assert_eq!(
        m,
        MatrixVar::<f64>::from_vec(3, 3, vec![2.0, 1.0, 4.0, 0.0, -2.0, 14.0, 0.0, 0.0, 82.0]).unwrap()
    );
    let mut system = MatrixVar::<f64>::from_vec(2, 3, vec![0.0, 1.0, -2.0, 1.0, 1.0, -3.0]).unwrap();
    let mut view = RowMatrixView::from_matrix(&mut system);
    assert_eq!(triangulate_upper(&mut view), 2);
    assert_eq!((view.get(0, 0), view.get(0, 1), view.get(0, 2)), (1.0, 1.0, -3.0));
    assert_eq!((view.get(1, 0), view.get(1, 1), view.get(1, 2)), (0.0, 1.0, -2.0));
    let mut none = MatrixVar::<f64>::new(2, 0);
    assert_eq!(triangulate_upper(&mut RowMatrixView::from_matrix(&mut none)), 0);
    let mut singular = MatrixVar::<f64>::from_vec(2, 3, vec![1.0, 2.0, 3.0, 2.0, 4.0, 7.0]).unwrap();
    assert_eq!(triangulate_upper(&mut RowMatrixView::from_matrix(&mut singular)), 1);
}

#[test]
fn solving_leaves_the_triangular_form_behind() {
    // y - 2 = 0, x + y - 3 = 0
    let mut system = MatrixVar::<f64>::from_vec(2, 3, vec![0.0, 1.0, -2.0, 1.0, 1.0, -3.0]).unwrap();
    assert_eq!(solve_from_matrix(&mut system), Ok(vec![1.0, 2.0]));
    // the rows stay where they are: the second row was the pivot row
    assert_eq!(
        system,
        MatrixVar::<f64>::from_vec(2, 3, vec![0.0, 1.0, -2.0, 1.0, 1.0, -3.0]).unwrap()
    );
    // more rows than unknowns: the rows after the last pivot are not looked at
    let mut tall = MatrixVar::<f64>::from_vec(3, 2, vec![2.0, -4.0, 1.0, 100.0, 0.0, 7.0]).unwrap();
    assert_eq!(solve_from_row_matrix_view(&mut RowMatrixView::from_matrix(&mut tall)), Ok(vec![2.0]));
    let mut one = MatrixVar::<f64>::new(5, 1);
    assert_eq!(solve_from_matrix(&mut one), Ok(vec![]));
}
