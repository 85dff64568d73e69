//! Dense matrices: the `Matrix` interface, its element-wise and product
//! operations, and the owned matrix types.

use vstd::prelude::*;
use vstd::std_specs::ops::{AddSpec, DivSpec, MulSpec, SubSpec};
use core::ops::{Add, Div, Mul, Sub};
use crate::scalar::{exact_default, make_zero, zero};

verus! {

/// Errors that can occur while performing operations on a matrix.
#[derive(Debug, PartialEq, Eq, Structural, Clone, Copy)]
pub enum OperationError {
    /// The supplied matrices do not have the correct dimensions.
    BadDim,
}

/// A rectangular grid of values, read and written cell by cell.
///
/// The mathematical model of a matrix is its shape (`spec_rows`, `spec_cols`) and
/// the value `at(row, col)` of every cell inside that shape.
pub trait Matrix: Sized {
    type Value: Copy + Default;

    /// The representation invariant of the matrix.
    spec fn wf(&self) -> bool;

    spec fn spec_rows(&self) -> nat;

    spec fn spec_cols(&self) -> nat;

    /// The value of the cell at `(row, col)`.
    spec fn at(&self, row: int, col: int) -> Self::Value;

    /// The number of rows in the matrix.
    fn rows(&self) -> (n: usize)
        requires
            self.wf(),
        ensures
            n == self.spec_rows(),
    ;

    /// The number of columns in the matrix.
    fn cols(&self) -> (n: usize)
        requires
            self.wf(),
        ensures
            n == self.spec_cols(),
    ;

    /// Gets a value from the matrix.
    fn get(&self, row: usize, col: usize) -> (value: Self::Value)
        requires
            self.wf(),
            row < self.spec_rows(),
            col < self.spec_cols(),
        ensures
            value == self.at(row as int, col as int),
    ;

    /// Sets a value on the matrix; every other cell keeps its value.
    fn set(&mut self, row: usize, col: usize, value: Self::Value)
        requires
            old(self).wf(),
            row < old(self).spec_rows(),
            col < old(self).spec_cols(),
        ensures
            final(self).wf(),
            final(self).spec_rows() == old(self).spec_rows(),
            final(self).spec_cols() == old(self).spec_cols(),
            forall|r: int, c: int|
                0 <= r < old(self).spec_rows() && 0 <= c < old(self).spec_cols()
                    ==> #[trigger] final(self).at(r, c) == (if r == row && c == col {
                    value
                } else {
                    old(self).at(r, c)
                }),
    ;
}

/// The operations that every `Matrix` has, written once over its four primitives.
pub trait MatrixOps: Matrix {

    /// Assigns the values of `vec`, read row by row, to the matrix.
    fn assign_vec(&mut self, vec: Vec<Self::Value>) -> (result: Result<(), OperationError>)
        requires
            old(self).wf(),
        ensures
            final(self).wf(),
            same_shape(final(self), old(self)),
            result is Ok <==> vec.len() == old(self).spec_rows() * old(self).spec_cols(),
            result is Ok ==> forall|r: int, c: int|
                in_shape(old(self), r, c) ==> final(self).at(r, c) == vec[r * old(self).spec_cols()
                    + c],
            result is Err ==> same_cells(final(self), old(self)),
    {
        let rows = self.rows();
        let cols = self.cols();
        let fits = match rows.checked_mul(cols) {
            Some(n) => n == vec.len(),
            None => false,
        };
        if fits {
            let mut row: usize = 0;
            while row < rows
                invariant
                    self.wf(),
                    same_shape(self, old(self)),
                    rows == self.spec_rows(),
                    cols == self.spec_cols(),
                    vec.len() == rows * cols,
                    row <= rows,
                    forall|r: int, c: int|
                        in_shape(self, r, c) && r < row ==> self.at(r, c) == vec[r * cols + c],
                decreases rows - row,
            {
                let mut col: usize = 0;
                while col < cols
                    invariant
                        self.wf(),
                        same_shape(self, old(self)),
                        rows == self.spec_rows(),
                        cols == self.spec_cols(),
                        vec.len() == rows * cols,
                        row < rows,
                        col <= cols,
                        forall|r: int, c: int|
                            in_shape(self, r, c) && (r < row || (r == row && c < col))
                                ==> self.at(r, c) == vec[r * cols + c],
                    decreases cols - col,
                {
                    proof {
                        lemma_cell_index(rows as int, cols as int, row as int, col as int);
                    }
                    let ghost before = *self;
                    let value = vec[row * cols + col];
                    self.set(row, col, value);
                    assert forall|r: int, c: int|
                        in_shape(self, r, c) && (r < row || (r == row && c < col + 1))
                        implies self.at(r, c) == vec[r * cols + c] by {
                        assert(in_shape(&before, r, c));
                    }
                    col = col + 1;
                }
                row = row + 1;
            }
            Ok(())
        } else {
            Err(OperationError::BadDim)
        }
    }

    /// Assigns the values of another matrix of the same shape.
    fn assign_matrix<M: Matrix<Value = Self::Value>>(&mut self, m: &M) -> (result: Result<
        (),
        OperationError,
    >)
        requires
            old(self).wf(),
            m.wf(),
        ensures
            final(self).wf(),
            same_shape(final(self), old(self)),
            result is Ok <==> same_shape(old(self), m),
            result is Ok ==> same_cells(final(self), m),
            result is Err ==> same_cells(final(self), old(self)),
    {
        let rows = self.rows();
        let cols = self.cols();
        if rows == m.rows() && cols == m.cols() {
            let mut row: usize = 0;
            while row < rows
                invariant
                    self.wf(),
                    m.wf(),
                    same_shape(self, old(self)),
                    same_shape(self, m),
                    rows == self.spec_rows(),
                    cols == self.spec_cols(),
                    row <= rows,
                    forall|r: int, c: int|
                        in_shape(self, r, c) && r < row ==> self.at(r, c) == m.at(r, c),
                decreases rows - row,
            {
                let mut col: usize = 0;
                while col < cols
                    invariant
                        self.wf(),
                        m.wf(),
                        same_shape(self, old(self)),
                        same_shape(self, m),
                        rows == self.spec_rows(),
                        cols == self.spec_cols(),
                        row < rows,
                        col <= cols,
                        forall|r: int, c: int|
                            in_shape(self, r, c) && (r < row || (r == row && c < col))
                                ==> self.at(r, c) == m.at(r, c),
                    decreases cols - col,
                {
                    let ghost before = *self;
                    self.set(row, col, m.get(row, col));
                    assert forall|r: int, c: int|
                        in_shape(self, r, c) && (r < row || (r == row && c < col + 1))
                        implies self.at(r, c) == m.at(r, c) by {
                        assert(in_shape(&before, r, c));
                    }
                    col = col + 1;
                }
                row = row + 1;
            }
            Ok(())
        } else {
            Err(OperationError::BadDim)
        }
    }

    /// Adds another matrix of the same shape to this one, cell by cell.
    fn assign_add<M: Matrix<Value = Self::Value>>(&mut self, other: &M) -> (result: Result<
        (),
        OperationError,
    >) where Self::Value: Add<Output = Self::Value>
        requires
            old(self).wf(),
            other.wf(),
            same_shape(old(self), other) ==> forall|r: int, c: int|
                in_shape(old(self), r, c) ==> old(self).at(r, c).add_req(other.at(r, c)),
        ensures
            final(self).wf(),
            same_shape(final(self), old(self)),
            result is Ok <==> same_shape(old(self), other),
            result is Ok && Self::Value::obeys_add_spec() ==> forall|r: int, c: int|
                in_shape(old(self), r, c) ==> final(self).at(r, c) == old(self).at(r, c).add_spec(
                    other.at(r, c),
                ),
            result is Err ==> same_cells(final(self), old(self)),
    {
        let rows = self.rows();
        let cols = self.cols();
        if other.rows() == rows && other.cols() == cols {
            let mut row: usize = 0;
            while row < rows
                invariant
                    self.wf(),
                    other.wf(),
                    same_shape(self, old(self)),
                    same_shape(self, other),
                    rows == self.spec_rows(),
                    cols == self.spec_cols(),
                    row <= rows,
                    forall|r: int, c: int|
                        in_shape(old(self), r, c) ==> old(self).at(r, c).add_req(other.at(r, c)),
                    forall|r: int, c: int|
                        in_shape(self, r, c) && r >= row ==> self.at(r, c) == old(self).at(r, c),
                    Self::Value::obeys_add_spec() ==> forall|r: int, c: int|
                        in_shape(self, r, c) && r < row ==> self.at(r, c) == old(self).at(
                            r,
                            c,
                        ).add_spec(other.at(r, c)),
                decreases rows - row,
            {
                let mut col: usize = 0;
                while col < cols
                    invariant
                        self.wf(),
                        other.wf(),
                        same_shape(self, old(self)),
                        same_shape(self, other),
                        rows == self.spec_rows(),
                        cols == self.spec_cols(),
                        row < rows,
                        col <= cols,
                        forall|r: int, c: int|
                            in_shape(old(self), r, c) ==> old(self).at(r, c).add_req(
                                other.at(r, c),
                            ),
                        forall|r: int, c: int|
                            in_shape(self, r, c) && (r > row || (r == row && c >= col))
                                ==> self.at(r, c) == old(self).at(r, c),
                        Self::Value::obeys_add_spec() ==> forall|r: int, c: int|
                            in_shape(self, r, c) && (r < row || (r == row && c < col))
                                ==> self.at(r, c) == old(self).at(r, c).add_spec(other.at(r, c)),
                    decreases cols - col,
                {
                    let ghost before = *self;
                    assert(in_shape(old(self), row as int, col as int));
                    assert(in_shape(&before, row as int, col as int));
                    let value = self.get(row, col) + other.get(row, col);
                    self.set(row, col, value);
                    assert forall|r: int, c: int|
                        in_shape(self, r, c) && (r > row || (r == row && c >= col + 1))
                        implies self.at(r, c) == old(self).at(r, c) by {
                        assert(in_shape(&before, r, c));
                    }
                    assert(Self::Value::obeys_add_spec() ==> forall|r: int, c: int|
                        in_shape(self, r, c) && (r < row || (r == row && c < col + 1))
                            ==> self.at(r, c) == old(self).at(r, c).add_spec(other.at(r, c))) by {
                        if Self::Value::obeys_add_spec() {
                            assert forall|r: int, c: int|
                                in_shape(self, r, c) && (r < row || (r == row && c < col + 1))
                                implies self.at(r, c) == old(self).at(r, c).add_spec(
                                other.at(r, c),
                            ) by {
                                assert(in_shape(&before, r, c));
                            }
                        }
                    }
                    col = col + 1;
                }
                row = row + 1;
            }
            Ok(())
        } else {
            Err(OperationError::BadDim)
        }
    }

    /// Subtracts another matrix of the same shape from this one, cell by cell.
    fn assign_sub<M: Matrix<Value = Self::Value>>(&mut self, other: &M) -> (result: Result<
        (),
        OperationError,
    >) where Self::Value: Sub<Output = Self::Value>
        requires
            old(self).wf(),
            other.wf(),
            same_shape(old(self), other) ==> forall|r: int, c: int|
                in_shape(old(self), r, c) ==> old(self).at(r, c).sub_req(other.at(r, c)),
        ensures
            final(self).wf(),
            same_shape(final(self), old(self)),
            result is Ok <==> same_shape(old(self), other),
            result is Ok && Self::Value::obeys_sub_spec() ==> forall|r: int, c: int|
                in_shape(old(self), r, c) ==> final(self).at(r, c) == old(self).at(r, c).sub_spec(
                    other.at(r, c),
                ),
            result is Err ==> same_cells(final(self), old(self)),
    {
        let rows = self.rows();
        let cols = self.cols();
        if other.rows() == rows && other.cols() == cols {
            let mut row: usize = 0;
            while row < rows
                invariant
                    self.wf(),
                    other.wf(),
                    same_shape(self, old(self)),
                    same_shape(self, other),
                    rows == self.spec_rows(),
                    cols == self.spec_cols(),
                    row <= rows,
                    forall|r: int, c: int|
                        in_shape(old(self), r, c) ==> old(self).at(r, c).sub_req(other.at(r, c)),
                    forall|r: int, c: int|
                        in_shape(self, r, c) && r >= row ==> self.at(r, c) == old(self).at(r, c),
                    Self::Value::obeys_sub_spec() ==> forall|r: int, c: int|
                        in_shape(self, r, c) && r < row ==> self.at(r, c) == old(self).at(
                            r,
                            c,
                        ).sub_spec(other.at(r, c)),
                decreases rows - row,
            {
                let mut col: usize = 0;
                while col < cols
                    invariant
                        self.wf(),
                        other.wf(),
                        same_shape(self, old(self)),
                        same_shape(self, other),
                        rows == self.spec_rows(),
                        cols == self.spec_cols(),
                        row < rows,
                        col <= cols,
                        forall|r: int, c: int|
                            in_shape(old(self), r, c) ==> old(self).at(r, c).sub_req(
                                other.at(r, c),
                            ),
                        forall|r: int, c: int|
                            in_shape(self, r, c) && (r > row || (r == row && c >= col))
                                ==> self.at(r, c) == old(self).at(r, c),
                        Self::Value::obeys_sub_spec() ==> forall|r: int, c: int|
                            in_shape(self, r, c) && (r < row || (r == row && c < col))
                                ==> self.at(r, c) == old(self).at(r, c).sub_spec(other.at(r, c)),
                    decreases cols - col,
                {
                    let ghost before = *self;
                    assert(in_shape(old(self), row as int, col as int));
                    assert(in_shape(&before, row as int, col as int));
                    let value = self.get(row, col) - other.get(row, col);
                    self.set(row, col, value);
                    assert forall|r: int, c: int|
                        in_shape(self, r, c) && (r > row || (r == row && c >= col + 1))
                        implies self.at(r, c) == old(self).at(r, c) by {
                        assert(in_shape(&before, r, c));
                    }
                    assert(Self::Value::obeys_sub_spec() ==> forall|r: int, c: int|
                        in_shape(self, r, c) && (r < row || (r == row && c < col + 1))
                            ==> self.at(r, c) == old(self).at(r, c).sub_spec(other.at(r, c))) by {
                        if Self::Value::obeys_sub_spec() {
                            assert forall|r: int, c: int|
                                in_shape(self, r, c) && (r < row || (r == row && c < col + 1))
                                implies self.at(r, c) == old(self).at(r, c).sub_spec(
                                other.at(r, c),
                            ) by {
                                assert(in_shape(&before, r, c));
                            }
                        }
                    }
                    col = col + 1;
                }
                row = row + 1;
            }
            Ok(())
        } else {
            Err(OperationError::BadDim)
        }
    }

    /// Multiplies every cell of the matrix by a scalar.
    fn assign_mul_scalar(&mut self, other: Self::Value) where
        Self::Value: Mul<Output = Self::Value>,

        requires
            old(self).wf(),
            forall|r: int, c: int| in_shape(old(self), r, c) ==> old(self).at(r, c).mul_req(other),
        ensures
            final(self).wf(),
            same_shape(final(self), old(self)),
            Self::Value::obeys_mul_spec() ==> forall|r: int, c: int|
                in_shape(old(self), r, c) ==> #[trigger] final(self).at(r, c) == old(self).at(
                    r,
                    c,
                ).mul_spec(other),
    {
        let rows = self.rows();
        let cols = self.cols();
        let mut row: usize = 0;
        while row < rows
            invariant
                self.wf(),
                same_shape(self, old(self)),
                rows == self.spec_rows(),
                cols == self.spec_cols(),
                row <= rows,
                forall|r: int, c: int|
                    in_shape(old(self), r, c) ==> old(self).at(r, c).mul_req(other),
                forall|r: int, c: int|
                    in_shape(self, r, c) && r >= row ==> #[trigger] self.at(r, c) == old(self).at(
                        r,
                        c,
                    ),
                Self::Value::obeys_mul_spec() ==> forall|r: int, c: int|
                    in_shape(self, r, c) && r < row ==> #[trigger] self.at(r, c) == old(self).at(
                        r,
                        c,
                    ).mul_spec(other),
            decreases rows - row,
        {
            let mut col: usize = 0;
            while col < cols
                invariant
                    self.wf(),
                    same_shape(self, old(self)),
                    rows == self.spec_rows(),
                    cols == self.spec_cols(),
                    row < rows,
                    col <= cols,
                    forall|r: int, c: int|
                        in_shape(old(self), r, c) ==> old(self).at(r, c).mul_req(other),
                    forall|r: int, c: int|
                        in_shape(self, r, c) && (r > row || (r == row && c >= col))
                            ==> #[trigger] self.at(r, c) == old(self).at(r, c),
                    Self::Value::obeys_mul_spec() ==> forall|r: int, c: int|
                        in_shape(self, r, c) && (r < row || (r == row && c < col))
                            ==> #[trigger] self.at(r, c) == old(self).at(r, c).mul_spec(other),
                decreases cols - col,
            {
                assert(self.at(row as int, col as int) == old(self).at(row as int, col as int));
                assert(in_shape(old(self), row as int, col as int));
                let value = self.get(row, col) * other;
                self.set(row, col, value);
                col = col + 1;
            }
            row = row + 1;
        }
    }

    /// Divides every cell of the matrix by a scalar.
    fn assign_div_scalar(&mut self, other: Self::Value) where
        Self::Value: Div<Output = Self::Value>,

        requires
            old(self).wf(),
            forall|r: int, c: int| in_shape(old(self), r, c) ==> old(self).at(r, c).div_req(other),
        ensures
            final(self).wf(),
            same_shape(final(self), old(self)),
            Self::Value::obeys_div_spec() ==> forall|r: int, c: int|
                in_shape(old(self), r, c) ==> #[trigger] final(self).at(r, c) == old(self).at(
                    r,
                    c,
                ).div_spec(other),
    {
        let rows = self.rows();
        let cols = self.cols();
        let mut row: usize = 0;
        while row < rows
            invariant
                self.wf(),
                same_shape(self, old(self)),
                rows == self.spec_rows(),
                cols == self.spec_cols(),
                row <= rows,
                forall|r: int, c: int|
                    in_shape(old(self), r, c) ==> old(self).at(r, c).div_req(other),
                forall|r: int, c: int|
                    in_shape(self, r, c) && r >= row ==> #[trigger] self.at(r, c) == old(self).at(
                        r,
                        c,
                    ),
                Self::Value::obeys_div_spec() ==> forall|r: int, c: int|
                    in_shape(self, r, c) && r < row ==> #[trigger] self.at(r, c) == old(self).at(
                        r,
                        c,
                    ).div_spec(other),
            decreases rows - row,
        {
            let mut col: usize = 0;
            while col < cols
                invariant
                    self.wf(),
                    same_shape(self, old(self)),
                    rows == self.spec_rows(),
                    cols == self.spec_cols(),
                    row < rows,
                    col <= cols,
                    forall|r: int, c: int|
                        in_shape(old(self), r, c) ==> old(self).at(r, c).div_req(other),
                    forall|r: int, c: int|
                        in_shape(self, r, c) && (r > row || (r == row && c >= col))
                            ==> #[trigger] self.at(r, c) == old(self).at(r, c),
                    Self::Value::obeys_div_spec() ==> forall|r: int, c: int|
                        in_shape(self, r, c) && (r < row || (r == row && c < col))
                            ==> #[trigger] self.at(r, c) == old(self).at(r, c).div_spec(other),
                decreases cols - col,
            {
                assert(self.at(row as int, col as int) == old(self).at(row as int, col as int));
                assert(in_shape(old(self), row as int, col as int));
                let value = self.get(row, col) / other;
                self.set(row, col, value);
                col = col + 1;
            }
            row = row + 1;
        }
    }

    /// Assigns the product of two matrices to this matrix.
    fn assign_mul_matrices<M: Matrix<Value = Self::Value>, N: Matrix<Value = Self::Value>>(
        &mut self,
        first: &M,
        second: &N,
    ) -> (result: Result<(), OperationError>) where
        Self::Value: Add<Output = Self::Value> + Mul<Output = Self::Value>,

        requires
            old(self).wf(),
            first.wf(),
            second.wf(),
            forall|a: Self::Value, b: Self::Value| #[trigger] a.add_req(b),
            forall|a: Self::Value, b: Self::Value| #[trigger] a.mul_req(b),
        ensures
            final(self).wf(),
            same_shape(final(self), old(self)),
            result is Ok <==> product_fits(old(self), first, second),
            result is Ok && exact_product::<Self::Value>() ==> forall|r: int, c: int|
                in_shape(old(self), r, c) ==> #[trigger] final(self).at(r, c) == dot(
                    first,
                    second,
                    r,
                    c,
                    first.spec_cols(),
                ),
            result is Err ==> same_cells(final(self), old(self)),
    {
        let rows = self.rows();
        let cols = self.cols();
        let inner = first.cols();
        if inner == second.rows() && rows == first.rows() && cols == second.cols() {
            let mut row: usize = 0;
            while row < rows
                invariant
                    self.wf(),
                    first.wf(),
                    second.wf(),
                    same_shape(self, old(self)),
                    product_fits(self, first, second),
                    rows == self.spec_rows(),
                    cols == self.spec_cols(),
                    inner == first.spec_cols(),
                    row <= rows,
                    forall|a: Self::Value, b: Self::Value| #[trigger] a.add_req(b),
                    forall|a: Self::Value, b: Self::Value| #[trigger] a.mul_req(b),
                    exact_product::<Self::Value>() ==> forall|r: int, c: int|
                        in_shape(self, r, c) && r < row ==> #[trigger] self.at(r, c) == dot(
                            first,
                            second,
                            r,
                            c,
                            inner as nat,
                        ),
                decreases rows - row,
            {
                let mut col: usize = 0;
                while col < cols
                    invariant
                        self.wf(),
                        first.wf(),
                        second.wf(),
                        same_shape(self, old(self)),
                        product_fits(self, first, second),
                        rows == self.spec_rows(),
                        cols == self.spec_cols(),
                        inner == first.spec_cols(),
                        row < rows,
                        col <= cols,
                        forall|a: Self::Value, b: Self::Value| #[trigger] a.add_req(b),
                        forall|a: Self::Value, b: Self::Value| #[trigger] a.mul_req(b),
                        exact_product::<Self::Value>() ==> forall|r: int, c: int|
                            in_shape(self, r, c) && (r < row || (r == row && c < col))
                                ==> #[trigger] self.at(r, c) == dot(
                                first,
                                second,
                                r,
                                c,
                                inner as nat,
                            ),
                    decreases cols - col,
                {
                    let mut value = make_zero::<Self::Value>();
                    let mut n: usize = 0;
                    while n < inner
                        invariant
                            first.wf(),
                            second.wf(),
                            inner == first.spec_cols(),
                            inner == second.spec_rows(),
                            row < first.spec_rows(),
                            col < second.spec_cols(),
                            n <= inner,
                            forall|a: Self::Value, b: Self::Value| #[trigger] a.add_req(b),
                            forall|a: Self::Value, b: Self::Value| #[trigger] a.mul_req(b),
                            exact_product::<Self::Value>() ==> value == dot(
                                first,
                                second,
                                row as int,
                                col as int,
                                n as nat,
                            ),
                        decreases inner - n,
                    {
                        value = value + first.get(row, n) * second.get(n, col);
                        n = n + 1;
                    }
                    self.set(row, col, value);
                    col = col + 1;
                }
                row = row + 1;
            }
            Ok(())
        } else {
            Err(OperationError::BadDim)
        }
    }

    /// The determinant of a square matrix of order one or two. A larger square
    /// matrix is not expanded: for it the result is the default value.
    fn det(&self) -> (result: Result<Self::Value, OperationError>) where
        Self::Value: Mul<Output = Self::Value> + Sub<Output = Self::Value>,

        requires
            self.wf(),
            forall|a: Self::Value, b: Self::Value| #[trigger] a.mul_req(b),
            forall|a: Self::Value, b: Self::Value| #[trigger] a.sub_req(b),
        ensures
            result is Ok <==> self.spec_rows() == self.spec_cols() && self.spec_rows() != 0,
            result is Ok && self.spec_rows() == 1 ==> result == Ok::<Self::Value, OperationError>(
                self.at(0, 0),
            ),
            result is Ok && self.spec_rows() == 2 && Self::Value::obeys_mul_spec()
                && Self::Value::obeys_sub_spec() ==> result == Ok::<Self::Value, OperationError>(
                self.at(0, 0).mul_spec(self.at(1, 1)).sub_spec(
                    self.at(0, 1).mul_spec(self.at(1, 0)),
                ),
            ),
            result is Ok && self.spec_rows() > 2 ==> call_ensures(
                Self::Value::default,
                (),
                result->Ok_0,
            ),
    {
        let rows = self.rows();
        if rows == self.cols() {
            if rows == 0 {
                Err(OperationError::BadDim)
            } else if rows == 1 {
                Ok(self.get(0, 0))
            } else if rows == 2 {
                Ok(self.get(0, 0) * self.get(1, 1) - self.get(0, 1) * self.get(1, 0))
            } else {
                Ok(make_zero::<Self::Value>())
            }
        } else {
            Err(OperationError::BadDim)
        }
    }
}

impl<A: Matrix> MatrixOps for A {

}

/// Two matrices have the same numbers of rows and columns.
pub open spec fn same_shape<A: Matrix, B: Matrix>(a: &A, b: &B) -> bool {
    a.spec_rows() == b.spec_rows() && a.spec_cols() == b.spec_cols()
}

/// `(row, col)` names a cell of the matrix.
pub open spec fn in_shape<A: Matrix>(a: &A, row: int, col: int) -> bool {
    0 <= row < a.spec_rows() && 0 <= col < a.spec_cols()
}

/// Cell by cell, `a` holds what `b` holds.
pub open spec fn same_cells<A: Matrix, B: Matrix<Value = A::Value>>(a: &A, b: &B) -> bool {
    forall|r: int, c: int| in_shape(a, r, c) ==> a.at(r, c) == b.at(r, c)
}

/// The cells of a matrix as a sequence of rows.
pub open spec fn grid<A: Matrix>(a: &A) -> Seq<Seq<A::Value>> {
    Seq::new(a.spec_rows(), |r: int| Seq::new(a.spec_cols(), |c: int| a.at(r, c)))
}

/// The shapes of a product: `target = first * second`.
pub open spec fn product_fits<A: Matrix, M: Matrix, N: Matrix>(
    target: &A,
    first: &M,
    second: &N,
) -> bool {
    &&& first.spec_cols() == second.spec_rows()
    &&& target.spec_rows() == first.spec_rows()
    &&& target.spec_cols() == second.spec_cols()
}

/// Sums and products of `T` are functions of their arguments, and zero is one value.
pub open spec fn exact_product<T: Default + Add<Output = T> + Mul<Output = T>>() -> bool {
    T::obeys_add_spec() && T::obeys_mul_spec() && exact_default::<T>()
}

/// The sum of the first `n` products of row `row` of `first` with column `col` of
/// `second`, added up from zero in the order of the index.
pub open spec fn dot<M: Matrix, N: Matrix<Value = M::Value>>(
    first: &M,
    second: &N,
    row: int,
    col: int,
    n: nat,
) -> M::Value where M::Value: Add<Output = M::Value> + Mul<Output = M::Value>
    decreases n,
{
    if n == 0 {
        zero::<M::Value>()
    } else {
        dot(first, second, row, col, (n - 1) as nat).add_spec(
            first.at(row, n - 1).mul_spec(second.at(n - 1, col)),
        )
    }
}

/// The row-major index of a cell lies inside the value list.
pub proof fn lemma_cell_index(rows: int, cols: int, row: int, col: int)
    requires
        0 <= row < rows,
        0 <= col < cols,
    ensures
        0 <= row * cols + col < rows * cols,
        row * cols + col < (row + 1) * cols,
{
    assert(row * cols + col < (row + 1) * cols) by (nonlinear_arith)
        requires
            0 <= col < cols,
    ;
    assert((row + 1) * cols <= rows * cols) by (nonlinear_arith)
        requires
            0 <= row < rows,
            0 <= cols,
    ;
    assert(0 <= row * cols) by (nonlinear_arith)
        requires
            0 <= row,
            0 <= cols,
    ;
}

/// A matrix whose shape is chosen when it is made.
pub trait VariableMatrix: Matrix {
    /// Creates a matrix of the given shape with every cell at the default value.
    fn new(rows: usize, cols: usize) -> (m: Self)
        requires
            rows * cols <= usize::MAX,
        ensures
            m.wf(),
            m.spec_rows() == rows,
            m.spec_cols() == cols,
            forall|r: int, c: int|
                0 <= r < rows && 0 <= c < cols ==> call_ensures(
                    Self::Value::default,
                    (),
                    #[trigger] m.at(r, c),
                ),
    ;

    /// Creates a matrix of the given shape from a list of values, read row by row.
    fn from_vec(rows: usize, cols: usize, vec: Vec<Self::Value>) -> (result: Result<
        Self,
        OperationError,
    >)
        requires
            rows * cols <= usize::MAX,
        ensures
            result is Ok <==> vec.len() == rows * cols,
            result is Ok ==> {
                let m = result->Ok_0;
                &&& m.wf()
                &&& m.spec_rows() == rows
                &&& m.spec_cols() == cols
                &&& forall|r: int, c: int|
                    0 <= r < rows && 0 <= c < cols ==> #[trigger] m.at(r, c) == vec[r * cols + c]
            },
            result is Err ==> result->Err_0 == OperationError::BadDim,
    {
        let mut result = Self::new(rows, cols);
        match result.assign_vec(vec) {
            Ok(()) => Ok(result),
            Err(e) => Err(e),
        }
    }

    /// Creates a matrix that is a copy of another one.
    fn from_matrix<M: Matrix<Value = Self::Value>>(matrix: &M) -> (m: Self)
        requires
            matrix.wf(),
            matrix.spec_rows() * matrix.spec_cols() <= usize::MAX,
        ensures
            m.wf(),
            same_shape(&m, matrix),
            same_cells(&m, matrix),
    {
        let mut result = Self::new(matrix.rows(), matrix.cols());
        let assigned = result.assign_matrix(matrix);
        assert(assigned is Ok);
        result
    }
}

/// A matrix whose shape is part of its type.
pub trait FixedMatrix: Matrix {
    /// Creates a matrix with every cell at the default value.
    fn new() -> (m: Self)
        ensures
            m.wf(),
            forall|r: int, c: int|
                0 <= r < m.spec_rows() && 0 <= c < m.spec_cols() ==> call_ensures(
                    Self::Value::default,
                    (),
                    #[trigger] m.at(r, c),
                ),
    ;
}

/// A matrix of any shape, stored row by row.
#[derive(Debug, PartialEq)]
pub struct MatrixVar<T> {
    rows: usize,
    cols: usize,
    values: Vec<T>,
}

impl<T: Copy + Default> VariableMatrix for MatrixVar<T> {
    fn new(rows: usize, cols: usize) -> (m: Self) {
        let len = rows * cols;
        let value = T::default();
        let mut values: Vec<T> = Vec::new();
        let mut i: usize = 0;
        while i < len
            invariant
                i <= len,
                values.len() == i,
                call_ensures(T::default, (), value),
                forall|k: int| 0 <= k < i ==> values[k] == value,
            decreases len - i,
        {
            values.push(value);
            i = i + 1;
        }
        let m = MatrixVar { rows, cols, values };
        assert forall|r: int, c: int| 0 <= r < rows && 0 <= c < cols implies call_ensures(
            T::default,
            (),
            #[trigger] m.at(r, c),
        ) by {
            lemma_cell_index(rows as int, cols as int, r, c);
        }
        m
    }
}

impl<T: Copy + Default> Matrix for MatrixVar<T> {
    type Value = T;

    closed spec fn wf(&self) -> bool {
        self.values.len() == self.rows * self.cols
    }

    closed spec fn spec_rows(&self) -> nat {
        self.rows as nat
    }

    closed spec fn spec_cols(&self) -> nat {
        self.cols as nat
    }

    closed spec fn at(&self, row: int, col: int) -> T {
        self.values[row * self.cols + col]
    }

    fn rows(&self) -> (n: usize) {
        self.rows
    }

    fn cols(&self) -> (n: usize) {
        self.cols
    }

    fn get(&self, row: usize, col: usize) -> (value: T) {
        proof {
            lemma_cell_index(self.rows as int, self.cols as int, row as int, col as int);
        }
        self.values[row * self.cols + col]
    }

    fn set(&mut self, row: usize, col: usize, value: T) {
        proof {
            lemma_cell_index(self.rows as int, self.cols as int, row as int, col as int);
        }
        let index = row * self.cols + col;
        self.values[index] = value;
        assert forall|r: int, c: int|
            0 <= r < old(self).spec_rows() && 0 <= c < old(self).spec_cols() implies #[trigger] self.at(
            r,
            c,
        ) == (if r == row && c == col {
            value
        } else {
            old(self).at(r, c)
        }) by {
            lemma_cell_index(self.rows as int, self.cols as int, r, c);
            if r != row || c != col {
                lemma_cell_index_distinct(self.cols as int, r, c, row as int, col as int);
            }
        }
    }
}

/// A matrix of two rows and three columns.
#[derive(Clone, Copy, Debug, PartialEq)]
pub struct Matrix2x3<T> {
    values: [T; 6],
}

impl<T: Copy + Default> Matrix2x3<T> {
    /// Creates a matrix from the supplied values, given row by row.
    pub fn from_values(m00: T, m01: T, m02: T, m10: T, m11: T, m12: T) -> (m: Self)
        ensures
            m.at(0, 0) == m00,
            m.at(0, 1) == m01,
            m.at(0, 2) == m02,
            m.at(1, 0) == m10,
            m.at(1, 1) == m11,
            m.at(1, 2) == m12,
    {
        Matrix2x3 { values: [m00, m01, m02, m10, m11, m12] }
    }

    /// Creates a matrix from the supplied array, read row by row.
    pub fn from_array(values: [T; 6]) -> (m: Self)
        ensures
            forall|r: int, c: int| 0 <= r < 2 && 0 <= c < 3 ==> #[trigger] m.at(r, c) == values[r * 3 + c],
    {
        Matrix2x3 { values }
    }

    /// Sets the values from a supplied array, read row by row.
    pub fn set_from_array(&mut self, values: &[T; 6])
        ensures
            forall|r: int, c: int|
                0 <= r < 2 && 0 <= c < 3 ==> #[trigger] final(self).at(r, c) == values[r * 3 + c],
    {
        let mut i: usize = 0;
        while i < 6
            invariant
                i <= 6,
                forall|k: int| 0 <= k < i ==> self.values[k] == values[k],
            decreases 6 - i,
        {
            self.values[i] = values[i];
            i = i + 1;
        }
    }
}

impl<T: Copy + Default> FixedMatrix for Matrix2x3<T> {
    fn new() -> (m: Self) {
        let value = T::default();
        Matrix2x3 { values: [value, value, value, value, value, value] }
    }
}

impl<T: Copy + Default> Matrix for Matrix2x3<T> {
    type Value = T;

    open spec fn wf(&self) -> bool {
        true
    }

    open spec fn spec_rows(&self) -> nat {
        2
    }

    open spec fn spec_cols(&self) -> nat {
        3
    }

    closed spec fn at(&self, row: int, col: int) -> T {
        self.values[row * 3 + col]
    }

    fn rows(&self) -> (n: usize) {
        2
    }

    fn cols(&self) -> (n: usize) {
        3
    }

    fn get(&self, row: usize, col: usize) -> (value: T) {
        self.values[row * 3 + col]
    }

    fn set(&mut self, row: usize, col: usize, value: T) {
        self.values[row * 3 + col] = value;
    }
}

/// A matrix of three rows and three columns.
#[derive(Clone, Copy, Debug, PartialEq)]
pub struct Matrix3x3<T> {
    values: [T; 9],
}

impl<T: Copy + Default> Matrix3x3<T> {
    /// Creates a matrix from the supplied values, given row by row.
    pub fn from_values(
        m00: T,
        m01: T,
        m02: T,
        m10: T,
        m11: T,
        m12: T,
        m20: T,
        m21: T,
        m22: T,
    ) -> (m: Self)
        ensures
            m.at(0, 0) == m00,
            m.at(0, 1) == m01,
            m.at(0, 2) == m02,
            m.at(1, 0) == m10,
            m.at(1, 1) == m11,
            m.at(1, 2) == m12,
            m.at(2, 0) == m20,
            m.at(2, 1) == m21,
            m.at(2, 2) == m22,
    {
        Matrix3x3 { values: [m00, m01, m02, m10, m11, m12, m20, m21, m22] }
    }

    /// Creates a matrix from the supplied array, read row by row.
    pub fn from_array(values: [T; 9]) -> (m: Self)
        ensures
            forall|r: int, c: int| 0 <= r < 3 && 0 <= c < 3 ==> #[trigger] m.at(r, c) == values[r * 3 + c],
    {
        Matrix3x3 { values }
    }

    /// Sets the values from a supplied array, read row by row.
    pub fn set_from_array(&mut self, values: &[T; 9])
        ensures
            forall|r: int, c: int|
                0 <= r < 3 && 0 <= c < 3 ==> #[trigger] final(self).at(r, c) == values[r * 3 + c],
    {
        let mut i: usize = 0;
        while i < 9
            invariant
                i <= 9,
                forall|k: int| 0 <= k < i ==> self.values[k] == values[k],
            decreases 9 - i,
        {
            self.values[i] = values[i];
            i = i + 1;
        }
    }
}

impl<T: Copy + Default> FixedMatrix for Matrix3x3<T> {
    fn new() -> (m: Self) {
        let value = T::default();
        Matrix3x3 { values: [value, value, value, value, value, value, value, value, value] }
    }
}

impl<T: Copy + Default> Matrix for Matrix3x3<T> {
    type Value = T;

    open spec fn wf(&self) -> bool {
        true
    }

    open spec fn spec_rows(&self) -> nat {
        3
    }

    open spec fn spec_cols(&self) -> nat {
        3
    }

    closed spec fn at(&self, row: int, col: int) -> T {
        self.values[row * 3 + col]
    }

    fn rows(&self) -> (n: usize) {
        3
    }

    fn cols(&self) -> (n: usize) {
        3
    }

    fn get(&self, row: usize, col: usize) -> (value: T) {
        self.values[row * 3 + col]
    }

    fn set(&mut self, row: usize, col: usize, value: T) {
        self.values[row * 3 + col] = value;
    }
}

/// Two different cells have different row-major indices.
pub proof fn lemma_cell_index_distinct(cols: int, r1: int, c1: int, r2: int, c2: int)
    requires
        0 <= c1 < cols,
        0 <= c2 < cols,
        0 <= r1,
        0 <= r2,
        r1 != r2 || c1 != c2,
    ensures
        r1 * cols + c1 != r2 * cols + c2,
{
    if r1 < r2 {
        assert(r1 * cols + cols <= r2 * cols) by (nonlinear_arith)
            requires
                r1 + 1 <= r2,
                0 <= cols,
        ;
    } else if r2 < r1 {
        assert(r2 * cols + cols <= r1 * cols) by (nonlinear_arith)
            requires
                r2 + 1 <= r1,
                0 <= cols,
        ;
    }
}

} // verus!
