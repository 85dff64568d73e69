//! A view on a matrix as a submatrix.

use vstd::prelude::*;
use crate::matrix::{Matrix, OperationError};

verus! {

/// A view of the block of a matrix that begins at `(first_row, first_col)` and
/// has `rows` rows and `cols` columns. Writing to the view writes to the
/// matrix.
#[derive(Debug)]
pub struct SubMatrixView<'a, M: Matrix> {
    /// The matrix that the view shows.
    pub src: &'a mut M,
    /// The first row in the view.
    pub first_row: usize,
    /// The first column in the view.
    pub first_col: usize,
    /// The number of rows in the view.
    pub rows: usize,
    /// The number of columns in the view.
    pub cols: usize,
}

impl<'a, M: Matrix> SubMatrixView<'a, M> {
    /// Creates the view of a block of a matrix. Fails, and leaves the matrix as
    /// it is, where the block does not lie inside the matrix.
    pub fn from_matrix(
        src: &'a mut M,
        first_row: usize,
        rows: usize,
        first_col: usize,
        cols: usize,
    ) -> (result: Result<SubMatrixView<'a, M>, OperationError>)
        requires
            old(src).wf(),
        ensures
            result is Ok <==> first_row + rows <= old(src).spec_rows() && first_col + cols
                <= old(src).spec_cols(),
            result is Err ==> result->Err_0 == OperationError::BadDim && *final(src) == *old(src),
            result matches Ok(view) ==> {
                &&& view.wf()
                &&& *view.src == *old(src)
                &&& *final(view.src) == *final(src)
                &&& view.first_row == first_row
                &&& view.first_col == first_col
                &&& view.rows == rows
                &&& view.cols == cols
            },
    {
        let src_rows = src.rows();
        let src_cols = src.cols();
        if first_row > src_rows || rows > src_rows - first_row || first_col > src_cols || cols
            > src_cols - first_col {
            Err(OperationError::BadDim)
        } else {
            Ok(SubMatrixView { src, first_row, first_col, rows, cols })
        }
    }
}

impl<'a, M: Matrix> Matrix for SubMatrixView<'a, M> {
    type Value = M::Value;

    open spec fn wf(&self) -> bool {
        &&& self.src.wf()
        &&& self.first_row + self.rows <= self.src.spec_rows() <= usize::MAX
        &&& self.first_col + self.cols <= self.src.spec_cols() <= usize::MAX
    }

    open spec fn spec_rows(&self) -> nat {
        self.rows as nat
    }

    open spec fn spec_cols(&self) -> nat {
        self.cols as nat
    }

    open spec fn at(&self, row: int, col: int) -> Self::Value {
        self.src.at(self.first_row + row, self.first_col + col)
    }

    fn rows(&self) -> (n: usize) {
        self.rows
    }

    fn cols(&self) -> (n: usize) {
        self.cols
    }

    fn get(&self, row: usize, col: usize) -> (value: Self::Value) {
        self.src.get(self.first_row + row, self.first_col + col)
    }

    fn set(&mut self, row: usize, col: usize, value: Self::Value)
        ensures
            *final(final(self).src) == *final(old(self).src),
            final(self).first_row == old(self).first_row,
            final(self).first_col == old(self).first_col,
    {
        self.src.set(self.first_row + row, self.first_col + col, value);
        assert forall|r: int, c: int|
            0 <= r < old(self).spec_rows() && 0 <= c < old(self).spec_cols() implies #[trigger] self.at(
            r,
            c,
        ) == (if r == row && c == col {
            value
        } else {
            old(self).at(r, c)
        }) by {
            assert(self.src.at(self.first_row + r, self.first_col + c) == if r == row && c == col {
                value
            } else {
                old(self).src.at(self.first_row + r, self.first_col + c)
            });
        }
    }
}

} // verus!
