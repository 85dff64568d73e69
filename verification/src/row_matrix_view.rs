//! A view on a matrix that allows for fast row permutations.

use vstd::prelude::*;
use crate::matrix::Matrix;

verus! {

/// A view of a matrix through a table that says which row of the source each
/// row of the view is. Swapping two rows swaps two entries of the table.
pub struct RowMatrixView<'a, M: Matrix> {
    /// The source matrix.
    pub src: &'a mut M,
    /// The row permutation table.
    pub rows: Vec<usize>,
}

/// `table` lists every index below its length exactly once.
pub open spec fn is_permutation(table: Seq<usize>) -> bool {
    &&& forall|i: int| 0 <= i < table.len() ==> #[trigger] table[i] < table.len()
    &&& forall|i: int, j: int|
        0 <= i < table.len() && 0 <= j < table.len() && i != j ==> #[trigger] table[i]
            != #[trigger] table[j]
}

impl<'a, M: Matrix> RowMatrixView<'a, M> {
    /// The row of the source that each row of the view stands for.
    pub open spec fn table(&self) -> Seq<usize> {
        self.rows@
    }

    /// Creates a view of the matrix with its rows in their own order.
    pub fn from_matrix(src: &'a mut M) -> (view: RowMatrixView<'a, M>)
        requires
            old(src).wf(),
        ensures
            view.wf(),
            *view.src == *old(src),
            *final(view.src) == *final(src),
            view.table().len() == old(src).spec_rows(),
            forall|i: int| 0 <= i < view.table().len() ==> #[trigger] view.table()[i] == i,
    {
        let n = src.rows();
        let mut rows: Vec<usize> = Vec::new();
        let mut i: usize = 0;
        while i < n
            invariant
                i <= n,
                rows.len() == i,
                forall|k: int| 0 <= k < i ==> #[trigger] rows[k] == k,
            decreases n - i,
        {
            rows.push(i);
            i = i + 1;
        }
        RowMatrixView { src, rows }
    }

    /// Swaps two rows of the view. The source matrix is not touched.
    pub fn swap_rows(&mut self, first: usize, second: usize)
        requires
            old(self).wf(),
            first < old(self).spec_rows(),
            second < old(self).spec_rows(),
        ensures
            final(self).wf(),
            *final(self).src == *old(self).src,
            *final(final(self).src) == *final(old(self).src),
            final(self).table() == old(self).table().update(
                first as int,
                old(self).table()[second as int],
            ).update(second as int, old(self).table()[first as int]),
    {
        let a = self.rows[first];
        let b = self.rows[second];
        self.rows[first] = b;
        self.rows[second] = a;
    }
}

impl<'a, M: Matrix> Matrix for RowMatrixView<'a, M> {
    type Value = M::Value;

    open spec fn wf(&self) -> bool {
        &&& self.src.wf()
        &&& self.table().len() == self.src.spec_rows()
        &&& is_permutation(self.table())
    }

    open spec fn spec_rows(&self) -> nat {
        self.src.spec_rows()
    }

    open spec fn spec_cols(&self) -> nat {
        self.src.spec_cols()
    }

    open spec fn at(&self, row: int, col: int) -> Self::Value {
        self.src.at(self.table()[row] as int, col)
    }

    fn rows(&self) -> (n: usize) {
        self.src.rows()
    }

    fn cols(&self) -> (n: usize) {
        self.src.cols()
    }

    fn get(&self, row: usize, col: usize) -> (value: Self::Value) {
        self.src.get(self.rows[row], col)
    }

    fn set(&mut self, row: usize, col: usize, value: Self::Value)
        ensures
            final(self).table() == old(self).table(),
            *final(final(self).src) == *final(old(self).src),
    {
        let source_row = self.rows[row];
        self.src.set(source_row, col, value);
        assert forall|r: int, c: int|
            0 <= r < old(self).spec_rows() && 0 <= c < old(self).spec_cols() implies #[trigger] self.at(
            r,
            c,
        ) == (if r == row && c == col {
            value
        } else {
            old(self).at(r, c)
        }) by {
            assert(self.src.at(self.table()[r] as int, c) == if self.table()[r] == source_row && c
                == col {
                value
            } else {
                old(self).src.at(self.table()[r] as int, c)
            });
        }
    }
}

} // verus!
