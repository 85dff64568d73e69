//! A view that removes one row and one column of its source matrix.

use vstd::prelude::*;
use crate::matrix::{Matrix, OperationError};

verus! {

/// A view of a matrix without its row `row` and its column `col`. Writing to
/// the view writes to the matrix.
#[derive(Debug)]
pub struct MinorMatrixView<'a, M: Matrix> {
    /// The matrix that the view shows.
    pub src: &'a mut M,
    /// The row that is left out.
    pub row: usize,
    /// The column that is left out.
    pub col: usize,
}

/// The index in the source of the index `i` of the view, where `skipped` is
/// left out.
pub open spec fn source_index(i: int, skipped: int) -> int {
    if i < skipped {
        i
    } else {
        i + 1
    }
}

impl<'a, M: Matrix> MinorMatrixView<'a, M> {
    /// Creates the view of a matrix without the given row and column. Fails, and
    /// leaves the matrix as it is, where the matrix has no such row or column.
    pub fn from_matrix(src: &'a mut M, row: usize, col: usize) -> (result: Result<
        Self,
        OperationError,
    >)
        requires
            old(src).wf(),
        ensures
            result is Ok <==> row < old(src).spec_rows() && col < old(src).spec_cols(),
            result is Err ==> result->Err_0 == OperationError::BadDim && *final(src) == *old(src),
            result matches Ok(view) ==> {
                &&& view.wf()
                &&& *view.src == *old(src)
                &&& *final(view.src) == *final(src)
                &&& view.row == row
                &&& view.col == col
            },
    {
        if row < src.rows() && col < src.cols() {
            Ok(MinorMatrixView { src, row, col })
        } else {
            Err(OperationError::BadDim)
        }
    }
}

impl<'a, M: Matrix> Matrix for MinorMatrixView<'a, M> {
    type Value = M::Value;

    open spec fn wf(&self) -> bool {
        &&& self.src.wf()
        &&& self.row < self.src.spec_rows() <= usize::MAX
        &&& self.col < self.src.spec_cols() <= usize::MAX
    }

    open spec fn spec_rows(&self) -> nat {
        (self.src.spec_rows() - 1) as nat
    }

    open spec fn spec_cols(&self) -> nat {
        (self.src.spec_cols() - 1) as nat
    }

    open spec fn at(&self, row: int, col: int) -> Self::Value {
        self.src.at(source_index(row, self.row as int), source_index(col, self.col as int))
    }

    fn rows(&self) -> (n: usize) {
        self.src.rows() - 1
    }

    fn cols(&self) -> (n: usize) {
        self.src.cols() - 1
    }

    fn get(&self, row: usize, col: usize) -> (value: Self::Value) {
        let source_row = if row < self.row {
            row
        } else {
            row + 1
        };
        let source_col = if col < self.col {
            col
        } else {
            col + 1
        };
        self.src.get(source_row, source_col)
    }

    fn set(&mut self, row: usize, col: usize, value: Self::Value)
        ensures
            *final(final(self).src) == *final(old(self).src),
            final(self).row == old(self).row,
            final(self).col == old(self).col,
    {
        let source_row = if row < self.row {
            row
        } else {
            row + 1
        };
        let source_col = if col < self.col {
            col
        } else {
            col + 1
        };
        self.src.set(source_row, source_col, value);
        assert forall|r: int, c: int|
            0 <= r < old(self).spec_rows() && 0 <= c < old(self).spec_cols() implies #[trigger] self.at(
            r,
            c,
        ) == (if r == row && c == col {
            value
        } else {
            old(self).at(r, c)
        }) by {
            let sr = source_index(r, self.row as int);
            let sc = source_index(c, self.col as int);
            assert(self.src.at(sr, sc) == if sr == source_row && sc == source_col {
                value
            } else {
                old(self).src.at(sr, sc)
            });
        }
    }
}

} // verus!
