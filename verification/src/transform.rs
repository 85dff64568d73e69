//! Affine transforms of the plane, as 3 x 3 matrices that act on the points
//! `(x, y, 1)`.

use vstd::prelude::*;
use vstd::std_specs::ops::{AddSpec, DivSpec, MulSpec, NegSpec, SubSpec};
use crate::matrix::{dot, grid, FixedMatrix, Matrix, Matrix3x3, MatrixOps};
use crate::scalar::{
    constant,
    exact_scalar,
    make_constant,
    make_zero,
    total_ops,
    zero,
    Scalar,
};
use crate::vector::{row_dot, FixedVector, Vec3, Vector, Vector3, VectorOps};

verus! {

/// Represents a 2D transform.
pub struct Transform<T> {
    /// The linear transformation matrix.
    matrix: Matrix3x3<T>,
}

impl<T: Scalar> Transform<T> {
    /// The matrix of the transform.
    pub closed spec fn spec_matrix(&self) -> Matrix3x3<T> {
        self.matrix
    }

    /// Applies the transform to the point `(x, y)`.
    pub fn transform_values(&self, x: T, y: T) -> (image: (T, T))
        requires
            total_ops::<T>(),
        ensures
            exact_scalar::<T>() ==> {
                let point = Vec3 { values: [x, y, constant::<T>(1)] };
                &&& image.0 == row_dot(&self.spec_matrix(), &point, 0, 3)
                &&& image.1 == row_dot(&self.spec_matrix(), &point, 1, 3)
            },
    {
        let mut result = Vec3::new();
        let point = Vec3::from_values(x, y, make_constant::<T>(1));
        let assigned = result.assign_mul_matrix(&self.matrix, &point);
        proof {
            if exact_scalar::<T>() {
                assert(point.values =~= [x, y, constant::<T>(1)]);
            }
        }
        (result.get(0), result.get(1))
    }
}

/// The matrix that leaves every point where it is.
pub open spec fn identity_grid<T: Scalar>() -> Seq<Seq<T>> {
    seq![
        seq![constant::<T>(1), zero::<T>(), zero::<T>()],
        seq![zero::<T>(), constant::<T>(1), zero::<T>()],
        seq![zero::<T>(), zero::<T>(), constant::<T>(1)],
    ]
}

/// The matrix that scales by `sx` along `x` and by `sy` along `y`.
pub open spec fn scale_grid<T: Scalar>(sx: T, sy: T) -> Seq<Seq<T>> {
    seq![
        seq![sx, zero::<T>(), zero::<T>()],
        seq![zero::<T>(), sy, zero::<T>()],
        seq![zero::<T>(), zero::<T>(), constant::<T>(1)],
    ]
}

/// The matrix that turns by the angle with the given cosine and sine.
pub open spec fn rotate_grid<T: Scalar>(cos: T, sin: T) -> Seq<Seq<T>> {
    seq![
        seq![cos, sin, zero::<T>()],
        seq![sin.neg_spec(), cos, zero::<T>()],
        seq![zero::<T>(), zero::<T>(), constant::<T>(1)],
    ]
}

/// The matrix that moves by `(dx, dy)`.
pub open spec fn translate_grid<T: Scalar>(dx: T, dy: T) -> Seq<Seq<T>> {
    seq![
        seq![constant::<T>(1), zero::<T>(), dx],
        seq![zero::<T>(), constant::<T>(1), dy],
        seq![zero::<T>(), zero::<T>(), constant::<T>(1)],
    ]
}

/// The matrix with the given rows.
fn matrix_of<T: Scalar>(
    m00: T,
    m01: T,
    m02: T,
    m10: T,
    m11: T,
    m12: T,
    m20: T,
    m21: T,
    m22: T,
) -> (m: Matrix3x3<T>)
    ensures
        grid(&m) == seq![seq![m00, m01, m02], seq![m10, m11, m12], seq![m20, m21, m22]],
{
    let m = Matrix3x3::from_values(m00, m01, m02, m10, m11, m12, m20, m21, m22);
    proof {
        let expected = seq![seq![m00, m01, m02], seq![m10, m11, m12], seq![m20, m21, m22]];
        assert(grid(&m).len() == 3);
        assert(grid(&m)[0] =~= expected[0]);
        assert(grid(&m)[1] =~= expected[1]);
        assert(grid(&m)[2] =~= expected[2]);
        assert(grid(&m) =~= expected);
    }
    m
}

/// The product of the first `n` matrices of a stack, each multiplied from the
/// left onto the product of those before it; of no matrix, the identity.
pub open spec fn composed<T: Scalar>(stack: Seq<Matrix3x3<T>>, n: nat) -> Seq<Seq<T>>
    decreases n,
{
    if n == 0 {
        identity_grid::<T>()
    } else {
        product_grid(grid(&stack[n - 1]), composed(stack, (n - 1) as nat))
    }
}

/// The product of two 3 x 3 grids.
pub open spec fn product_grid<T: Scalar>(a: Seq<Seq<T>>, b: Seq<Seq<T>>) -> Seq<Seq<T>> {
    Seq::new(3, |r: int| Seq::new(3, |c: int| grid_dot(a, b, r, c, 3)))
}

/// The sum of the first `n` products of row `row` of `a` with column `col` of
/// `b`, added up from zero in the order of the index.
pub open spec fn grid_dot<T: Scalar>(a: Seq<Seq<T>>, b: Seq<Seq<T>>, row: int, col: int, n: nat) -> T
    decreases n,
{
    if n == 0 {
        zero::<T>()
    } else {
        grid_dot(a, b, row, col, (n - 1) as nat).add_spec(a[row][n - 1].mul_spec(b[n - 1][col]))
    }
}

/// The product of two matrices, cell by cell, is the product of their grids.
proof fn lemma_dot_is_grid_dot<T: Scalar>(
    first: &Matrix3x3<T>,
    second: &Matrix3x3<T>,
    row: int,
    col: int,
    n: nat,
)
    requires
        0 <= row < 3,
        0 <= col < 3,
        n <= 3,
    ensures
        dot(first, second, row, col, n) == grid_dot(grid(first), grid(second), row, col, n),
    decreases n,
{
    if n > 0 {
        lemma_dot_is_grid_dot(first, second, row, col, (n - 1) as nat);
    }
}

/// A builder for transforms: a stack of transforms that are applied one after
/// the other, the first one pushed first.
pub struct TransformBuilder<T> {
    /// A stack of extended affine transformation matrices.
    stack: Vec<Matrix3x3<T>>,
}

impl<T: Scalar> TransformBuilder<T> {
    /// The matrices pushed so far.
    pub closed spec fn spec_stack(&self) -> Seq<Matrix3x3<T>> {
        self.stack@
    }

    /// Creates a new transform builder.
    pub fn new() -> (builder: TransformBuilder<T>)
        ensures
            builder.spec_stack().len() == 0,
    {
        TransformBuilder { stack: Vec::new() }
    }

    /// Pushes a scaling and returns its position on the stack.
    pub fn push_scale(&mut self, sx: T, sy: T) -> (index: usize)
        ensures
            index == old(self).spec_stack().len(),
            final(self).spec_stack().len() == index + 1,
            final(self).spec_stack().subrange(0, index as int) == old(self).spec_stack(),
            exact_scalar::<T>() ==> grid(&final(self).spec_stack()[index as int]) == scale_grid(
                sx,
                sy,
            ),
    {
        let z = make_zero::<T>();
        let one = make_constant::<T>(1);
        self.push_matrix(matrix_of(sx, z, z, z, sy, z, z, z, one))
    }

    /// Pushes a rotation, given by the cosine and the sine of its angle, and
    /// returns its position on the stack.
    pub fn push_rotate(&mut self, cos: T, sin: T) -> (index: usize)
        requires
            total_ops::<T>(),
        ensures
            index == old(self).spec_stack().len(),
            final(self).spec_stack().len() == index + 1,
            final(self).spec_stack().subrange(0, index as int) == old(self).spec_stack(),
            exact_scalar::<T>() ==> grid(&final(self).spec_stack()[index as int]) == rotate_grid(
                cos,
                sin,
            ),
    {
        let z = make_zero::<T>();
        let one = make_constant::<T>(1);
        self.push_matrix(matrix_of(cos, sin, z, sin.neg(), cos, z, z, z, one))
    }

    /// Pushes a translation and returns its position on the stack.
    pub fn push_translate(&mut self, dx: T, dy: T) -> (index: usize)
        ensures
            index == old(self).spec_stack().len(),
            final(self).spec_stack().len() == index + 1,
            final(self).spec_stack().subrange(0, index as int) == old(self).spec_stack(),
            exact_scalar::<T>() ==> grid(&final(self).spec_stack()[index as int])
                == translate_grid(dx, dy),
    {
        let z = make_zero::<T>();
        let one = make_constant::<T>(1);
        self.push_matrix(matrix_of(one, z, dx, z, one, dy, z, z, one))
    }

    /// Pushes a matrix and returns its position on the stack.
    pub fn push_matrix(&mut self, matrix: Matrix3x3<T>) -> (index: usize)
        ensures
            index == old(self).spec_stack().len(),
            final(self).spec_stack() == old(self).spec_stack().push(matrix),
            final(self).spec_stack().len() == index + 1,
            final(self).spec_stack().subrange(0, index as int) == old(self).spec_stack(),
            final(self).spec_stack()[index as int] == matrix,
    {
        let index = self.stack.len();
        self.stack.push(matrix);
        proof {
            assert(self.stack@.subrange(0, index as int) =~= old(self).stack@);
        }
        index
    }

    /// Empties the stack.
    pub fn clear(&mut self)
        ensures
            final(self).spec_stack().len() == 0,
    {
        self.stack.clear();
    }

    /// Builds the transform that applies the transforms on the stack one after
    /// the other, the first one pushed first.
    pub fn build(&self) -> (transform: Transform<T>)
        requires
            total_ops::<T>(),
        ensures
            exact_scalar::<T>() ==> grid(&transform.spec_matrix()) == composed(
                self.spec_stack(),
                self.spec_stack().len(),
            ),
    {
        let z = make_zero::<T>();
        let one = make_constant::<T>(1);
        let mut result = matrix_of(one, z, z, z, one, z, z, z, one);
        let mut buffer = Matrix3x3::new();
        let n = self.stack.len();
        let mut i: usize = 0;
        while i < n
            invariant
                i <= n,
                n == self.stack.len(),
                total_ops::<T>(),
                exact_scalar::<T>() ==> grid(&result) == composed(self.stack@, i as nat),
            decreases n - i,
        {
            let ghost before = result;
            let assigned = buffer.assign_mul_matrices(&self.stack[i], &result);
            proof {
                if exact_scalar::<T>() {
                    let expected = product_grid(grid(&self.stack[i as int]), grid(&before));
                    assert forall|r: int, c: int| 0 <= r < 3 && 0 <= c < 3 implies grid(
                        &buffer,
                    )[r][c] == expected[r][c] by {
                        lemma_dot_is_grid_dot(&self.stack[i as int], &before, r, c, 3);
                    }
                    assert(grid(&buffer)[0] =~= expected[0]);
                    assert(grid(&buffer)[1] =~= expected[1]);
                    assert(grid(&buffer)[2] =~= expected[2]);
                    assert(grid(&buffer) =~= expected);
                }
            }
            let swap = buffer;
            buffer = result;
            result = swap;
            i = i + 1;
        }
        Transform { matrix: result }
    }
}

} // verus!
