//! Systems of linear equations, solved by Gaussian elimination with partial
//! pivoting.
//!
//! A system of `n` unknowns is an `n x (n + 1)` matrix: the row `[a1 .. an b]`
//! stands for `a1 x1 + .. + an xn + b = 0`.
//!
//! The spec functions of this module say, step by step, which grid of cells each
//! stage of the elimination leaves and which vector back substitution yields;
//! they apply the operators of the scalar type in the same order as the
//! executable code does, because for a scalar type such as a floating-point
//! number the order decides the result.

use vstd::prelude::*;
use vstd::std_specs::ops::{AddSpec, DivSpec, MulSpec, NegSpec, SubSpec};
use core::ops::{Add, Div, Mul, Neg, Sub};
use crate::elimination::{lemma_solution_solves, solves};
use crate::field::is_field;
use crate::matrix::{grid, Matrix};
use crate::row_matrix_view::{is_permutation, RowMatrixView};
use crate::scalar::{exact_ops, gt, lt, make_zero, same, total_ops, zero, Field};

verus! {

/// Enumerates errors that can occur when solving a system of linear equations.
#[derive(Debug, PartialEq, Eq, Structural, Clone, Copy)]
pub enum SolveError {
    /// There is no unique solution.
    NoUniqueSolution,
}

/// The absolute value by which pivots are compared.
pub open spec fn magnitude<T: Field>(v: T) -> T {
    if lt(v, zero::<T>()) {
        v.neg_spec()
    } else {
        v
    }
}

/// The row in `start ..= last` whose cell in column `col` has the greatest
/// magnitude; of several such rows, the first.
pub open spec fn pivot_choice<T: Field>(g: Seq<Seq<T>>, start: int, col: int, last: int) -> int
    decreases last - start,
{
    if last <= start {
        start
    } else {
        let best = pivot_choice(g, start, col, last - 1);
        if gt(magnitude(g[last][col]), magnitude(g[best][col])) {
            last
        } else {
            best
        }
    }
}

/// Column `col` has a cell other than zero in some row from `start` on.
pub open spec fn has_pivot<T: Field>(g: Seq<Seq<T>>, start: int, col: int) -> bool {
    start < g.len() && !same(
        magnitude(g[pivot_choice(g, start, col, g.len() - 1)][col]),
        zero::<T>(),
    )
}

/// The grid with rows `i` and `j` exchanged.
pub open spec fn rows_swapped<T>(g: Seq<Seq<T>>, i: int, j: int) -> Seq<Seq<T>> {
    g.update(i, g[j]).update(j, g[i])
}

/// The grid after the pivot of column `col` was brought to row `start`, where
/// there is one.
pub open spec fn with_pivot<T: Field>(g: Seq<Seq<T>>, start: int, col: int) -> Seq<Seq<T>> {
    if has_pivot(g, start, col) {
        rows_swapped(g, pivot_choice(g, start, col, g.len() - 1), start)
    } else {
        g
    }
}

/// One cell of the grid after column `pc` was cleared below the pivot row `pr`.
pub open spec fn eliminated_cell<T: Field>(g: Seq<Seq<T>>, pr: int, pc: int, r: int, c: int) -> T {
    if r > pr && c >= pc && !same(g[r][pc], zero::<T>()) {
        if c == pc {
            zero::<T>()
        } else {
            g[pr][c].mul_spec(g[r][pc]).sub_spec(g[r][c].mul_spec(g[pr][pc]))
        }
    } else {
        g[r][c]
    }
}

/// The grid after column `pc` was cleared below the pivot row `pr`.
pub open spec fn eliminated<T: Field>(g: Seq<Seq<T>>, pr: int, pc: int) -> Seq<Seq<T>> {
    Seq::new(g.len(), |r: int| Seq::new(g[r].len(), |c: int| eliminated_cell(g, pr, pc, r, c)))
}

/// The grid and the number of pivots found after the columns before `col` were
/// treated, from the left.
pub open spec fn triangulated<T: Field>(g: Seq<Seq<T>>, col: int) -> (Seq<Seq<T>>, int)
    decreases col,
{
    if col <= 0 {
        (g, 0)
    } else {
        let (h, start) = triangulated(g, col - 1);
        if has_pivot(h, start, col - 1) {
            (eliminated(with_pivot(h, start, col - 1), start, col - 1), start + 1)
        } else {
            (h, start)
        }
    }
}

/// The right-hand side of row `row`, less the terms of the unknowns from
/// `row + 1` up to, not including, `upto`.
pub open spec fn reduced_rhs<T: Field>(g: Seq<Seq<T>>, x: Seq<T>, order: int, row: int, upto: int) -> T
    decreases upto - row,
{
    if upto <= row + 1 {
        g[row][order].neg_spec()
    } else {
        reduced_rhs(g, x, order, row, upto - 1).sub_spec(g[row][upto - 1].mul_spec(x[upto - 1]))
    }
}

/// The unknowns from `row` on, found from the bottom row up; those before `row`
/// are still zero.
pub open spec fn back_substituted<T: Field>(g: Seq<Seq<T>>, order: int, row: int) -> Seq<T>
    decreases order - row,
{
    if row >= order {
        Seq::new(order as nat, |i: int| zero::<T>())
    } else {
        let x = back_substituted(g, order, row + 1);
        x.update(row, reduced_rhs(g, x, order, row, order).div_spec(g[row][row]))
    }
}

/// The grid that solving leaves behind: the triangular form, where elimination
/// was tried at all.
pub open spec fn worked_grid<T: Field>(g: Seq<Seq<T>>, rows: int, cols: int) -> Seq<Seq<T>> {
    if cols == 0 || rows + 1 < cols {
        g
    } else {
        triangulated(g, cols - 1).0
    }
}

/// `physical` holds the rows of `logical`, in some order.
pub open spec fn is_row_arrangement<T>(physical: Seq<Seq<T>>, logical: Seq<Seq<T>>) -> bool {
    exists|table: Seq<usize>|
        {
            &&& #[trigger] is_permutation(table)
            &&& table.len() == logical.len()
            &&& physical.len() == logical.len()
            &&& forall|r: int| 0 <= r < logical.len() ==> physical[table[r] as int] == logical[r]
        }
}

/// What solving the system in `g`, of the given shape, yields.
pub open spec fn solution_of<T: Field>(g: Seq<Seq<T>>, rows: int, cols: int) -> Result<
    Seq<T>,
    SolveError,
> {
    if cols == 0 {
        Ok(Seq::empty())
    } else if rows + 1 < cols {
        Err(SolveError::NoUniqueSolution)
    } else {
        let (h, order) = triangulated(g, cols - 1);
        if order == cols - 1 {
            Ok(back_substituted(h, order, 0))
        } else {
            Err(SolveError::NoUniqueSolution)
        }
    }
}

/// The magnitude of a value: the value itself, or its negation where it is below
/// zero.
pub fn abs_pivot_value<T: Field>(value: T) -> (r: T)
    requires
        total_ops::<T>(),
    ensures
        exact_ops::<T>() ==> r == magnitude(value),
{
    if value < make_zero::<T>() {
        value.neg()
    } else {
        value
    }
}

/// Finds the pivot of column `col` among the rows from `start` on and brings it
/// to row `start`. True on success, false where the column holds no pivot.
pub fn find_pivot<'a, M: Matrix>(matrix: &mut RowMatrixView<'a, M>, start: usize, col: usize) -> (found:
    bool) where M::Value: Field
    requires
        old(matrix).wf(),
        col < old(matrix).spec_cols(),
        total_ops::<M::Value>(),
    ensures
        final(matrix).wf(),
        *final(matrix).src == *old(matrix).src,
        *final(final(matrix).src) == *final(old(matrix).src),
        found ==> start < old(matrix).spec_rows(),
        exact_ops::<M::Value>() ==> found == has_pivot(grid(old(matrix)), start as int, col as int),
        exact_ops::<M::Value>() ==> grid(final(matrix)) == with_pivot(
            grid(old(matrix)),
            start as int,
            col as int,
        ),
{
    let ghost g = grid(matrix);
    let rows = matrix.rows();
    if start >= rows {
        false
    } else {
        let mut index = start;
        let mut value = abs_pivot_value(matrix.get(start, col));
        let mut row = start + 1;
        while row < rows
            invariant
                matrix.wf(),
                *matrix == *old(matrix),
                g == grid(matrix),
                rows == matrix.spec_rows(),
                col < matrix.spec_cols(),
                total_ops::<M::Value>(),
                start < row <= rows,
                start <= index < row,
                exact_ops::<M::Value>() ==> index == pivot_choice(g, start as int, col as int, row - 1),
                exact_ops::<M::Value>() ==> value == magnitude(g[index as int][col as int]),
            decreases rows - row,
        {
            let row_value = abs_pivot_value(matrix.get(row, col));
            if row_value > value {
                index = row;
                value = row_value;
            }
            row = row + 1;
        }
        if value == make_zero::<M::Value>() {
            false
        } else {
            if index != start {
                matrix.swap_rows(index, start);
            }
            proof {
                if exact_ops::<M::Value>() {
                    assert(grid(matrix) =~~= rows_swapped(g, index as int, start as int));
                }
            }
            true
        }
    }
}

/// Clears column `pivot_col` below row `pivot_row`: every later row whose cell
/// in that column is not zero is replaced by a combination of itself and the
/// pivot row.
pub fn eliminate_col<'a, M: Matrix>(
    matrix: &mut RowMatrixView<'a, M>,
    pivot_row: usize,
    pivot_col: usize,
) where M::Value: Field
    requires
        old(matrix).wf(),
        pivot_row < old(matrix).spec_rows(),
        pivot_col < old(matrix).spec_cols(),
        total_ops::<M::Value>(),
    ensures
        final(matrix).wf(),
        final(matrix).spec_rows() == old(matrix).spec_rows(),
        final(matrix).spec_cols() == old(matrix).spec_cols(),
        final(matrix).table() == old(matrix).table(),
        *final(final(matrix).src) == *final(old(matrix).src),
        exact_ops::<M::Value>() ==> grid(final(matrix)) == eliminated(
            grid(old(matrix)),
            pivot_row as int,
            pivot_col as int,
        ),
{
    let ghost g = grid(matrix);
    let rows = matrix.rows();
    let cols = matrix.cols();
    let pivot_value = matrix.get(pivot_row, pivot_col);
    let mut row = pivot_row + 1;
    while row < rows
        invariant
            matrix.wf(),
            rows == matrix.spec_rows(),
            cols == matrix.spec_cols(),
            rows == old(matrix).spec_rows(),
            cols == old(matrix).spec_cols(),
            g == grid(old(matrix)),
            matrix.table() == old(matrix).table(),
            *final(matrix.src) == *final(old(matrix).src),
            pivot_row < row <= rows,
            pivot_col < cols,
            total_ops::<M::Value>(),
            pivot_value == g[pivot_row as int][pivot_col as int],
            forall|r: int, c: int|
                0 <= r < rows && 0 <= c < cols && r >= row ==> #[trigger] matrix.at(r, c) == g[r][c],
            forall|r: int, c: int|
                0 <= r <= pivot_row && 0 <= c < cols ==> #[trigger] matrix.at(r, c) == g[r][c],
            exact_ops::<M::Value>() ==> forall|r: int, c: int|
                0 <= r < row && 0 <= c < cols ==> #[trigger] matrix.at(r, c) == eliminated_cell(
                    g,
                    pivot_row as int,
                    pivot_col as int,
                    r,
                    c,
                ),
        decreases rows - row,
    {
        let row_value = matrix.get(row, pivot_col);
        if row_value != make_zero::<M::Value>() {
            matrix.set(row, pivot_col, make_zero::<M::Value>());
            let mut col = pivot_col + 1;
            while col < cols
                invariant
                    matrix.wf(),
                    rows == matrix.spec_rows(),
                    cols == matrix.spec_cols(),
                    matrix.table() == old(matrix).table(),
                    *final(matrix.src) == *final(old(matrix).src),
                    pivot_row < row < rows,
                    pivot_col < col <= cols,
                    total_ops::<M::Value>(),
                    pivot_value == g[pivot_row as int][pivot_col as int],
                    row_value == g[row as int][pivot_col as int],
                    exact_ops::<M::Value>() ==> !same(row_value, zero::<M::Value>()),
                    g.len() == rows,
                    forall|r: int| 0 <= r < rows ==> (#[trigger] g[r]).len() == cols,
                    forall|r: int, c: int|
                        0 <= r < rows && 0 <= c < cols && (r > row || (r == row && (c >= col || c
                            < pivot_col))) ==> #[trigger] matrix.at(r, c) == g[r][c],
                    forall|r: int, c: int|
                        0 <= r <= pivot_row && 0 <= c < cols ==> #[trigger] matrix.at(r, c)
                            == g[r][c],
                    exact_ops::<M::Value>() ==> forall|r: int, c: int|
                        0 <= r < rows && 0 <= c < cols && (r < row || (r == row && pivot_col <= c
                            < col)) ==> #[trigger] matrix.at(r, c) == eliminated_cell(
                            g,
                            pivot_row as int,
                            pivot_col as int,
                            r,
                            c,
                        ),
                decreases cols - col,
            {
                let value = matrix.get(pivot_row, col) * row_value - matrix.get(row, col)
                    * pivot_value;
                matrix.set(row, col, value);
                col = col + 1;
            }
        }
        row = row + 1;
    }
    proof {
        if exact_ops::<M::Value>() {
            assert(grid(matrix) =~~= eliminated(g, pivot_row as int, pivot_col as int));
        }
    }
}

/// Brings the matrix to upper triangular form, column by column, and returns
/// the order of the matrix: the number of pivots found.
pub fn triangulate_upper<'a, M: Matrix>(matrix: &mut RowMatrixView<'a, M>) -> (order: usize) where
    M::Value: Field,

    requires
        old(matrix).wf(),
        total_ops::<M::Value>(),
    ensures
        final(matrix).wf(),
        final(matrix).spec_rows() == old(matrix).spec_rows(),
        final(matrix).spec_cols() == old(matrix).spec_cols(),
        *final(final(matrix).src) == *final(old(matrix).src),
        order <= old(matrix).spec_rows(),
        order < old(matrix).spec_cols() || order == 0,
        exact_ops::<M::Value>() ==> (grid(final(matrix)), order as int) == triangulated(
            grid(old(matrix)),
            old(matrix).spec_cols() - 1,
        ),
{
    let cols = matrix.cols();
    if cols == 0 {
        0
    } else {
        let mut start: usize = 0;
        let mut col: usize = 0;
        while col < cols - 1
            invariant
                matrix.wf(),
                matrix.spec_rows() == old(matrix).spec_rows(),
                matrix.spec_cols() == old(matrix).spec_cols(),
                cols == matrix.spec_cols(),
                *final(matrix.src) == *final(old(matrix).src),
                total_ops::<M::Value>(),
                col <= cols - 1,
                start <= col,
                start <= matrix.spec_rows(),
                exact_ops::<M::Value>() ==> (grid(matrix), start as int) == triangulated(
                    grid(old(matrix)),
                    col as int,
                ),
            decreases cols - col,
        {
            if find_pivot(matrix, start, col) {
                eliminate_col(matrix, start, col);
                start = start + 1;
            }
            col = col + 1;
        }
        start
    }
}

/// Solves the system held in a row view, which is left in triangular form.
pub fn solve_from_row_matrix_view<'a, M: Matrix>(matrix: &mut RowMatrixView<'a, M>) -> (result: Result<
    Vec<M::Value>,
    SolveError,
>) where M::Value: Field
    requires
        old(matrix).wf(),
        total_ops::<M::Value>(),
    ensures
        final(matrix).wf(),
        final(matrix).spec_rows() == old(matrix).spec_rows(),
        final(matrix).spec_cols() == old(matrix).spec_cols(),
        *final(final(matrix).src) == *final(old(matrix).src),
        old(matrix).spec_cols() == 0 ==> result is Ok,
        old(matrix).spec_rows() + 1 < old(matrix).spec_cols() ==> result is Err,
        result is Ok ==> result->Ok_0.len() + 1 == old(matrix).spec_cols()
            || old(matrix).spec_cols() == 0 && result->Ok_0.len() == 0,
        exact_ops::<M::Value>() ==> solved_as(
            result,
            solution_of(
                grid(old(matrix)),
                old(matrix).spec_rows() as int,
                old(matrix).spec_cols() as int,
            ),
        ),
        exact_ops::<M::Value>() ==> grid(final(matrix)) == worked_grid(
            grid(old(matrix)),
            old(matrix).spec_rows() as int,
            old(matrix).spec_cols() as int,
        ),
        exact_ops::<M::Value>() && is_field::<M::Value>() && old(matrix).spec_rows() + 1
            == old(matrix).spec_cols() ==> (result matches Ok(x) ==> solves(
            grid(old(matrix)),
            x@,
        )),
{
    proof {
        if is_field::<M::Value>() && matrix.spec_rows() + 1 == matrix.spec_cols() && solution_of(
            grid(matrix),
            matrix.spec_rows() as int,
            matrix.spec_cols() as int,
        ) is Ok {
            lemma_solution_solves(grid(matrix), matrix.spec_rows() as int);
        }
    }
    let rows = matrix.rows();
    let cols = matrix.cols();
    if cols == 0 {
        Ok(Vec::new())
    } else if rows < cols - 1 {
        Err(SolveError::NoUniqueSolution)
    } else {
        let order = triangulate_upper(matrix);
        if order == cols - 1 {
            let ghost h = grid(matrix);
            let zero_value = make_zero::<M::Value>();
            let mut solution: Vec<M::Value> = Vec::new();
            let mut i: usize = 0;
            while i < order
                invariant
                    i <= order,
                    solution.len() == i,
                    forall|k: int| 0 <= k < i ==> solution[k] == zero_value,
                decreases order - i,
            {
                solution.push(zero_value);
                i = i + 1;
            }
            proof {
                if exact_ops::<M::Value>() {
                    assert(solution@ =~= back_substituted(h, order as int, order as int));
                }
            }
            let mut row = order;
            while row > 0
                invariant
                    matrix.wf(),
                    h == grid(matrix),
                    matrix.spec_rows() == rows,
                    matrix.spec_cols() == cols,
                    order == cols - 1,
                    order <= rows,
                    row <= order,
                    solution.len() == order,
                    total_ops::<M::Value>(),
                    exact_ops::<M::Value>() ==> solution@ == back_substituted(
                        h,
                        order as int,
                        row as int,
                    ),
                decreases row,
            {
                row = row - 1;
                let mut value = matrix.get(row, order).neg();
                let mut col = row + 1;
                while col < order
                    invariant
                        matrix.wf(),
                        h == grid(matrix),
                        matrix.spec_rows() == rows,
                        matrix.spec_cols() == cols,
                        order == cols - 1,
                        order <= rows,
                        row < col <= order,
                        solution.len() == order,
                        total_ops::<M::Value>(),
                        exact_ops::<M::Value>() ==> value == reduced_rhs(
                            h,
                            solution@,
                            order as int,
                            row as int,
                            col as int,
                        ),
                    decreases order - col,
                {
                    value = value - matrix.get(row, col) * solution[col];
                    col = col + 1;
                }
                let pivot = matrix.get(row, row);
                solution[row] = value / pivot;
            }
            Ok(solution)
        } else {
            Err(SolveError::NoUniqueSolution)
        }
    }
}

/// The executable result `result` is the mathematical result `expected`.
pub open spec fn solved_as<T>(result: Result<Vec<T>, SolveError>, expected: Result<
    Seq<T>,
    SolveError,
>) -> bool {
    match (result, expected) {
        (Ok(v), Ok(s)) => v@ == s,
        (Err(e), Err(f)) => e == f,
        _ => false,
    }
}

/// Solves the system held in a matrix, which serves as scratch space: the
/// elimination is done in place.
///
/// Returns the values of the unknowns, or `NoUniqueSolution` where the system
/// has fewer rows than unknowns or where elimination finds fewer pivots than
/// unknowns. A matrix without columns is the empty system, whose solution is
/// the empty vector. Over a field, the values returned for a system of as many
/// equations as unknowns meet every equation.
pub fn solve_from_matrix<M: Matrix>(matrix: &mut M) -> (result: Result<Vec<M::Value>, SolveError>) where
    M::Value: Field,

    requires
        old(matrix).wf(),
        total_ops::<M::Value>(),
    ensures
        final(matrix).wf(),
        final(matrix).spec_rows() == old(matrix).spec_rows(),
        final(matrix).spec_cols() == old(matrix).spec_cols(),
        old(matrix).spec_cols() == 0 ==> result is Ok,
        old(matrix).spec_rows() + 1 < old(matrix).spec_cols() ==> result is Err,
        result is Ok ==> result->Ok_0.len() + 1 == old(matrix).spec_cols()
            || old(matrix).spec_cols() == 0 && result->Ok_0.len() == 0,
        exact_ops::<M::Value>() ==> solved_as(
            result,
            solution_of(
                grid(old(matrix)),
                old(matrix).spec_rows() as int,
                old(matrix).spec_cols() as int,
            ),
        ),
        exact_ops::<M::Value>() ==> is_row_arrangement(
            grid(final(matrix)),
            worked_grid(
                grid(old(matrix)),
                old(matrix).spec_rows() as int,
                old(matrix).spec_cols() as int,
            ),
        ),
        exact_ops::<M::Value>() && is_field::<M::Value>() && old(matrix).spec_rows() + 1
            == old(matrix).spec_cols() ==> (result matches Ok(x) ==> solves(
            grid(old(matrix)),
            x@,
        )),
{
    let ghost g = grid(matrix);
    let ghost rows = matrix.spec_rows() as int;
    let ghost cols = matrix.spec_cols() as int;
    let mut view = RowMatrixView::from_matrix(matrix);
    assert(grid(&view) =~~= g);
    let result = solve_from_row_matrix_view(&mut view);
    let ghost table = view.table();
    let ghost worked = grid(&view);
    let ghost source = *view.src;
    assert(has_resolved(view.src));
    proof {
        if exact_ops::<M::Value>() {
            assert(is_permutation(table));
            assert forall|r: int| 0 <= r < worked.len() implies grid(&source)[table[r] as int]
                == worked[r] by {
                assert(grid(&source)[table[r] as int] =~= worked[r]);
            }
            assert(is_row_arrangement(grid(&source), worked_grid(g, rows, cols)));
        }
    }
    result
}

} // verus!
