//! A transposed view on a matrix.

use vstd::prelude::*;
use crate::matrix::Matrix;

verus! {

/// A view of a matrix in which rows and columns have changed places. Writing
/// to the view writes to the matrix.
pub struct TransposedMatrixView<'a, M: Matrix> {
    /// The matrix that the view shows.
    pub src: &'a mut M,
}

impl<'a, M: Matrix> TransposedMatrixView<'a, M> {
    /// Creates the transposed view of a matrix.
    pub fn from_matrix(src: &'a mut M) -> (view: Self)
        requires
            old(src).wf(),
        ensures
            view.wf(),
            *view.src == *old(src),
            *final(view.src) == *final(src),
    {
        TransposedMatrixView { src }
    }
}

impl<'a, M: Matrix> Matrix for TransposedMatrixView<'a, M> {
    type Value = M::Value;

    open spec fn wf(&self) -> bool {
        self.src.wf()
    }

    open spec fn spec_rows(&self) -> nat {
        self.src.spec_cols()
    }

    open spec fn spec_cols(&self) -> nat {
        self.src.spec_rows()
    }

    open spec fn at(&self, row: int, col: int) -> Self::Value {
        self.src.at(col, row)
    }

    fn rows(&self) -> (n: usize) {
        self.src.cols()
    }

    fn cols(&self) -> (n: usize) {
        self.src.rows()
    }

    fn get(&self, row: usize, col: usize) -> (value: Self::Value) {
        self.src.get(col, row)
    }

    fn set(&mut self, row: usize, col: usize, value: Self::Value)
        ensures
            *final(final(self).src) == *final(old(self).src),
    {
        self.src.set(col, row, value);
        assert forall|r: int, c: int|
            0 <= r < old(self).spec_rows() && 0 <= c < old(self).spec_cols() implies #[trigger] self.at(
            r,
            c,
        ) == (if r == row && c == col {
            value
        } else {
            old(self).at(r, c)
        }) by {
            assert(self.src.at(c, r) == if c == col && r == row {
                value
            } else {
                old(self).src.at(c, r)
            });
        }
    }
}

} // verus!
