//! Vectors: the `Vector` interface, its operations, and the owned vector types.

use vstd::prelude::*;
use vstd::std_specs::ops::{AddSpec, DivSpec, MulSpec, NegSpec, SubSpec};
use core::ops::{Add, Div, Mul, Neg, Sub};
use crate::matrix::Matrix;
use crate::scalar::{exact_default, make_zero, zero};

verus! {

/// Errors that can occur while performing operations on a vector.
#[derive(Debug, PartialEq, Eq, Structural, Clone, Copy)]
pub enum OperationError {
    /// The supplied vectors do not have the correct dimensions.
    BadDim,
}

/// A list of values of fixed length, read and written entry by entry.
///
/// The mathematical model of a vector is its dimension `spec_dim` and the value
/// `at(index)` of every entry below it.
pub trait Vector: Sized {
    type Value: Copy + Default;

    /// The representation invariant of the vector.
    spec fn wf(&self) -> bool;

    spec fn spec_dim(&self) -> nat;

    /// The value of the entry at `index`.
    spec fn at(&self, index: int) -> Self::Value;

    /// The dimension of the vector.
    fn dim(&self) -> (n: usize)
        requires
            self.wf(),
        ensures
            n == self.spec_dim(),
    ;

    /// Gets a value from this vector.
    fn get(&self, index: usize) -> (value: Self::Value)
        requires
            self.wf(),
            index < self.spec_dim(),
        ensures
            value == self.at(index as int),
    ;

    /// Sets a value on this vector; every other entry keeps its value.
    fn set(&mut self, index: usize, value: Self::Value)
        requires
            old(self).wf(),
            index < old(self).spec_dim(),
        ensures
            final(self).wf(),
            final(self).spec_dim() == old(self).spec_dim(),
            forall|i: int|
                0 <= i < old(self).spec_dim() ==> #[trigger] final(self).at(i) == (if i == index {
                    value
                } else {
                    old(self).at(i)
                }),
    ;
}

/// The entries of a vector as a sequence.
pub open spec fn entries<V: Vector>(v: &V) -> Seq<V::Value> {
    Seq::new(v.spec_dim(), |i: int| v.at(i))
}

/// The operations that every `Vector` has, written once over its three
/// primitives.
pub trait VectorOps: Vector {
    /// Assigns the values of `v` to the vector.
    fn assign_vec(&mut self, v: &Vec<Self::Value>) -> (result: Result<(), OperationError>)
        requires
            old(self).wf(),
        ensures
            final(self).wf(),
            final(self).spec_dim() == old(self).spec_dim(),
            result is Ok <==> old(self).spec_dim() == v.len(),
            result is Ok ==> forall|i: int|
                0 <= i < old(self).spec_dim() ==> #[trigger] final(self).at(i) == v[i],
            result is Err ==> forall|i: int|
                0 <= i < old(self).spec_dim() ==> #[trigger] final(self).at(i) == old(self).at(i),
    {
        let dim = self.dim();
        if dim == v.len() {
            let mut i: usize = 0;
            while i < dim
                invariant
                    self.wf(),
                    dim == self.spec_dim(),
                    dim == old(self).spec_dim(),
                    dim == v.len(),
                    i <= dim,
                    forall|k: int| 0 <= k < i ==> #[trigger] self.at(k) == v[k],
                decreases dim - i,
            {
                self.set(i, v[i]);
                i = i + 1;
            }
            Ok(())
        } else {
            Err(OperationError::BadDim)
        }
    }

    /// Adds the supplied vector to this one, entry by entry.
    fn assign_add<V: Vector<Value = Self::Value>>(&mut self, other: &V) -> (result: Result<
        (),
        OperationError,
    >) where Self::Value: Add<Output = Self::Value>
        requires
            old(self).wf(),
            other.wf(),
            old(self).spec_dim() == other.spec_dim() ==> forall|i: int|
                0 <= i < old(self).spec_dim() ==> #[trigger] old(self).at(i).add_req(other.at(i)),
        ensures
            final(self).wf(),
            final(self).spec_dim() == old(self).spec_dim(),
            result is Ok <==> old(self).spec_dim() == other.spec_dim(),
            result is Ok && Self::Value::obeys_add_spec() ==> forall|i: int|
                0 <= i < old(self).spec_dim() ==> #[trigger] final(self).at(i) == old(self).at(
                    i,
                ).add_spec(other.at(i)),
            result is Err ==> forall|i: int|
                0 <= i < old(self).spec_dim() ==> #[trigger] final(self).at(i) == old(self).at(i),
    {
        let dim = self.dim();
        if dim != other.dim() {
            Err(OperationError::BadDim)
        } else {
            let mut i: usize = 0;
            while i < dim
                invariant
                    self.wf(),
                    other.wf(),
                    dim == self.spec_dim(),
                    dim == old(self).spec_dim(),
                    dim == other.spec_dim(),
                    i <= dim,
                    forall|k: int|
                        0 <= k < dim ==> #[trigger] old(self).at(k).add_req(other.at(k)),
                    forall|k: int| i <= k < dim ==> #[trigger] self.at(k) == old(self).at(k),
                    Self::Value::obeys_add_spec() ==> forall|k: int|
                        0 <= k < i ==> #[trigger] self.at(k) == old(self).at(k).add_spec(other.at(k)),
                decreases dim - i,
            {
                assert(self.at(i as int) == old(self).at(i as int));
                assert(old(self).at(i as int).add_req(other.at(i as int)));
                let value = self.get(i) + other.get(i);
                self.set(i, value);
                i = i + 1;
            }
            Ok(())
        }
    }

    /// Subtracts the supplied vector from this one, entry by entry.
    fn assign_sub<V: Vector<Value = Self::Value>>(&mut self, other: &V) -> (result: Result<
        (),
        OperationError,
    >) where Self::Value: Sub<Output = Self::Value>
        requires
            old(self).wf(),
            other.wf(),
            old(self).spec_dim() == other.spec_dim() ==> forall|i: int|
                0 <= i < old(self).spec_dim() ==> #[trigger] old(self).at(i).sub_req(other.at(i)),
        ensures
            final(self).wf(),
            final(self).spec_dim() == old(self).spec_dim(),
            result is Ok <==> old(self).spec_dim() == other.spec_dim(),
            result is Ok && Self::Value::obeys_sub_spec() ==> forall|i: int|
                0 <= i < old(self).spec_dim() ==> #[trigger] final(self).at(i) == old(self).at(
                    i,
                ).sub_spec(other.at(i)),
            result is Err ==> forall|i: int|
                0 <= i < old(self).spec_dim() ==> #[trigger] final(self).at(i) == old(self).at(i),
    {
        let dim = self.dim();
        if dim != other.dim() {
            Err(OperationError::BadDim)
        } else {
            let mut i: usize = 0;
            while i < dim
                invariant
                    self.wf(),
                    other.wf(),
                    dim == self.spec_dim(),
                    dim == old(self).spec_dim(),
                    dim == other.spec_dim(),
                    i <= dim,
                    forall|k: int|
                        0 <= k < dim ==> #[trigger] old(self).at(k).sub_req(other.at(k)),
                    forall|k: int| i <= k < dim ==> #[trigger] self.at(k) == old(self).at(k),
                    Self::Value::obeys_sub_spec() ==> forall|k: int|
                        0 <= k < i ==> #[trigger] self.at(k) == old(self).at(k).sub_spec(other.at(k)),
                decreases dim - i,
            {
                assert(self.at(i as int) == old(self).at(i as int));
                assert(old(self).at(i as int).sub_req(other.at(i as int)));
                let value = self.get(i) - other.get(i);
                self.set(i, value);
                i = i + 1;
            }
            Ok(())
        }
    }

    /// Negates every entry of the vector.
    fn assign_neg(&mut self) where Self::Value: Neg<Output = Self::Value>
        requires
            old(self).wf(),
            forall|i: int| 0 <= i < old(self).spec_dim() ==> #[trigger] old(self).at(i).neg_req(),
        ensures
            final(self).wf(),
            final(self).spec_dim() == old(self).spec_dim(),
            Self::Value::obeys_neg_spec() ==> forall|i: int|
                0 <= i < old(self).spec_dim() ==> #[trigger] final(self).at(i) == old(self).at(
                    i,
                ).neg_spec(),
    {
        let dim = self.dim();
        let mut i: usize = 0;
        while i < dim
            invariant
                self.wf(),
                dim == self.spec_dim(),
                dim == old(self).spec_dim(),
                i <= dim,
                forall|k: int| 0 <= k < dim ==> #[trigger] old(self).at(k).neg_req(),
                forall|k: int| i <= k < dim ==> #[trigger] self.at(k) == old(self).at(k),
                Self::Value::obeys_neg_spec() ==> forall|k: int|
                    0 <= k < i ==> #[trigger] self.at(k) == old(self).at(k).neg_spec(),
            decreases dim - i,
        {
            assert(self.at(i as int) == old(self).at(i as int));
            assert(old(self).at(i as int).neg_req());
            let value = self.get(i).neg();
            self.set(i, value);
            i = i + 1;
        }
    }

    /// Multiplies every entry of the vector by a scalar.
    fn assign_mul_scalar(&mut self, other: Self::Value) where Self::Value: Mul<Output = Self::Value>
        requires
            old(self).wf(),
            forall|i: int| 0 <= i < old(self).spec_dim() ==> #[trigger] old(self).at(i).mul_req(other),
        ensures
            final(self).wf(),
            final(self).spec_dim() == old(self).spec_dim(),
            Self::Value::obeys_mul_spec() ==> forall|i: int|
                0 <= i < old(self).spec_dim() ==> #[trigger] final(self).at(i) == old(self).at(
                    i,
                ).mul_spec(other),
    {
        let dim = self.dim();
        let mut i: usize = 0;
        while i < dim
            invariant
                self.wf(),
                dim == self.spec_dim(),
                dim == old(self).spec_dim(),
                i <= dim,
                forall|k: int| 0 <= k < dim ==> #[trigger] old(self).at(k).mul_req(other),
                forall|k: int| i <= k < dim ==> #[trigger] self.at(k) == old(self).at(k),
                Self::Value::obeys_mul_spec() ==> forall|k: int|
                    0 <= k < i ==> #[trigger] self.at(k) == old(self).at(k).mul_spec(other),
            decreases dim - i,
        {
            assert(self.at(i as int) == old(self).at(i as int));
            assert(old(self).at(i as int).mul_req(other));
            let value = self.get(i) * other;
            self.set(i, value);
            i = i + 1;
        }
    }

    /// Divides every entry of the vector by a scalar.
    fn assign_div_scalar(&mut self, other: Self::Value) where Self::Value: Div<Output = Self::Value>
        requires
            old(self).wf(),
            forall|i: int| 0 <= i < old(self).spec_dim() ==> #[trigger] old(self).at(i).div_req(other),
        ensures
            final(self).wf(),
            final(self).spec_dim() == old(self).spec_dim(),
            Self::Value::obeys_div_spec() ==> forall|i: int|
                0 <= i < old(self).spec_dim() ==> #[trigger] final(self).at(i) == old(self).at(
                    i,
                ).div_spec(other),
    {
        let dim = self.dim();
        let mut i: usize = 0;
        while i < dim
            invariant
                self.wf(),
                dim == self.spec_dim(),
                dim == old(self).spec_dim(),
                i <= dim,
                forall|k: int| 0 <= k < dim ==> #[trigger] old(self).at(k).div_req(other),
                forall|k: int| i <= k < dim ==> #[trigger] self.at(k) == old(self).at(k),
                Self::Value::obeys_div_spec() ==> forall|k: int|
                    0 <= k < i ==> #[trigger] self.at(k) == old(self).at(k).div_spec(other),
            decreases dim - i,
        {
            assert(self.at(i as int) == old(self).at(i as int));
            assert(old(self).at(i as int).div_req(other));
            let value = self.get(i) / other;
            self.set(i, value);
            i = i + 1;
        }
    }

    /// Assigns the product of a matrix and a vector to this vector.
    fn assign_mul_matrix<M, V>(&mut self, matrix: &M, vector: &V) -> (result: Result<
        (),
        OperationError,
    >) where
        V: Vector<Value = Self::Value>,
        M: Matrix<Value = Self::Value>,
        Self::Value: Add<Output = Self::Value> + Mul<Output = Self::Value>,

        requires
            old(self).wf(),
            matrix.wf(),
            vector.wf(),
            forall|a: Self::Value, b: Self::Value| #[trigger] a.add_req(b),
            forall|a: Self::Value, b: Self::Value| #[trigger] a.mul_req(b),
        ensures
            final(self).wf(),
            final(self).spec_dim() == old(self).spec_dim(),
            result is Ok <==> vector.spec_dim() == matrix.spec_cols() && old(self).spec_dim()
                == matrix.spec_rows(),
            result is Ok && exact_sums::<Self::Value>() ==> forall|i: int|
                0 <= i < old(self).spec_dim() ==> #[trigger] final(self).at(i) == row_dot(
                    matrix,
                    vector,
                    i,
                    matrix.spec_cols(),
                ),
            result is Err ==> forall|i: int|
                0 <= i < old(self).spec_dim() ==> #[trigger] final(self).at(i) == old(self).at(i),
    {
        let rows = matrix.rows();
        let cols = matrix.cols();
        if vector.dim() == cols && self.dim() == rows {
            let mut row: usize = 0;
            while row < rows
                invariant
                    self.wf(),
                    matrix.wf(),
                    vector.wf(),
                    rows == matrix.spec_rows(),
                    cols == matrix.spec_cols(),
                    cols == vector.spec_dim(),
                    rows == self.spec_dim(),
                    rows == old(self).spec_dim(),
                    row <= rows,
                    forall|a: Self::Value, b: Self::Value| #[trigger] a.add_req(b),
                    forall|a: Self::Value, b: Self::Value| #[trigger] a.mul_req(b),
                    exact_sums::<Self::Value>() ==> forall|i: int|
                        0 <= i < row ==> #[trigger] self.at(i) == row_dot(
                            matrix,
                            vector,
                            i,
                            cols as nat,
                        ),
                decreases rows - row,
            {
                let mut value = make_zero::<Self::Value>();
                let mut col: usize = 0;
                while col < cols
                    invariant
                        matrix.wf(),
                        vector.wf(),
                        rows == matrix.spec_rows(),
                        cols == matrix.spec_cols(),
                        cols == vector.spec_dim(),
                        row < rows,
                        col <= cols,
                        forall|a: Self::Value, b: Self::Value| #[trigger] a.add_req(b),
                        forall|a: Self::Value, b: Self::Value| #[trigger] a.mul_req(b),
                        exact_sums::<Self::Value>() ==> value == row_dot(
                            matrix,
                            vector,
                            row as int,
                            col as nat,
                        ),
                    decreases cols - col,
                {
                    value = value + vector.get(col) * matrix.get(row, col);
                    col = col + 1;
                }
                self.set(row, value);
                row = row + 1;
            }
            Ok(())
        } else {
            Err(OperationError::BadDim)
        }
    }

    /// Calculates the length squared of the vector.
    fn len_squared(&self) -> (result: Self::Value) where
        Self::Value: Mul<Output = Self::Value> + Add<Output = Self::Value>,

        requires
            self.wf(),
            forall|a: Self::Value, b: Self::Value| #[trigger] a.add_req(b),
            forall|a: Self::Value, b: Self::Value| #[trigger] a.mul_req(b),
        ensures
            exact_sums::<Self::Value>() ==> result == scalar_product_of(
                self,
                self,
                self.spec_dim(),
            ),
    {
        let dim = self.dim();
        let mut result = make_zero::<Self::Value>();
        let mut i: usize = 0;
        while i < dim
            invariant
                self.wf(),
                dim == self.spec_dim(),
                i <= dim,
                forall|a: Self::Value, b: Self::Value| #[trigger] a.add_req(b),
                forall|a: Self::Value, b: Self::Value| #[trigger] a.mul_req(b),
                exact_sums::<Self::Value>() ==> result == scalar_product_of(self, self, i as nat),
            decreases dim - i,
        {
            let val = self.get(i);
            result = result + val * val;
            i = i + 1;
        }
        result
    }

    /// Calculates the length of the vector: the square root of its length
    /// squared. `sqrt` is the square root of the value type.
    fn len<F: Fn(Self::Value) -> Self::Value>(&self, sqrt: &F) -> (result: Self::Value) where
        Self::Value: Mul<Output = Self::Value> + Add<Output = Self::Value>,

        requires
            self.wf(),
            forall|a: Self::Value, b: Self::Value| #[trigger] a.add_req(b),
            forall|a: Self::Value, b: Self::Value| #[trigger] a.mul_req(b),
            forall|x: Self::Value| call_requires(sqrt, (x,)),
        ensures
            exact_sums::<Self::Value>() ==> call_ensures(
                sqrt,
                (scalar_product_of(self, self, self.spec_dim()),),
                result,
            ),
    {
        sqrt(self.len_squared())
    }

    /// Calculates the scalar product with another vector of at least the same
    /// dimension.
    fn scalar_product<V>(&self, other: &V) -> (result: Self::Value) where
        V: Vector<Value = Self::Value>,
        Self::Value: Mul<Output = Self::Value> + Add<Output = Self::Value>,

        requires
            self.wf(),
            other.wf(),
            self.spec_dim() <= other.spec_dim(),
            forall|a: Self::Value, b: Self::Value| #[trigger] a.add_req(b),
            forall|a: Self::Value, b: Self::Value| #[trigger] a.mul_req(b),
        ensures
            exact_sums::<Self::Value>() ==> result == scalar_product_of(
                self,
                other,
                self.spec_dim(),
            ),
    {
        let dim = self.dim();
        let mut result = make_zero::<Self::Value>();
        let mut i: usize = 0;
        while i < dim
            invariant
                self.wf(),
                other.wf(),
                dim == self.spec_dim(),
                dim <= other.spec_dim(),
                i <= dim,
                forall|a: Self::Value, b: Self::Value| #[trigger] a.add_req(b),
                forall|a: Self::Value, b: Self::Value| #[trigger] a.mul_req(b),
                exact_sums::<Self::Value>() ==> result == scalar_product_of(self, other, i as nat),
            decreases dim - i,
        {
            result = result + self.get(i) * other.get(i);
            i = i + 1;
        }
        result
    }
}

impl<A: Vector> VectorOps for A {

}

/// Sums and products of `T` are functions of their arguments, and zero is one value.
pub open spec fn exact_sums<T: Default + Add<Output = T> + Mul<Output = T>>() -> bool {
    T::obeys_add_spec() && T::obeys_mul_spec() && exact_default::<T>()
}

/// The sum of the products of the first `n` entries of two vectors, added up
/// from zero in the order of the index.
pub open spec fn scalar_product_of<A: Vector, B: Vector<Value = A::Value>>(
    a: &A,
    b: &B,
    n: nat,
) -> A::Value where A::Value: Add<Output = A::Value> + Mul<Output = A::Value>
    decreases n,
{
    if n == 0 {
        zero::<A::Value>()
    } else {
        scalar_product_of(a, b, (n - 1) as nat).add_spec(a.at(n - 1).mul_spec(b.at(n - 1)))
    }
}

/// The sum of the products of the first `n` entries of a vector with those of
/// row `row` of a matrix, added up from zero in the order of the index.
pub open spec fn row_dot<M: Matrix, V: Vector<Value = M::Value>>(
    matrix: &M,
    vector: &V,
    row: int,
    n: nat,
) -> M::Value where M::Value: Add<Output = M::Value> + Mul<Output = M::Value>
    decreases n,
{
    if n == 0 {
        zero::<M::Value>()
    } else {
        row_dot(matrix, vector, row, (n - 1) as nat).add_spec(
            vector.at(n - 1).mul_spec(matrix.at(row, n - 1)),
        )
    }
}

/// A vector whose dimension is chosen when it is made.
pub trait VariableVector: Vector {
    /// Creates a vector of the given dimension with every entry at the default
    /// value.
    fn new(dim: usize) -> (v: Self)
        ensures
            v.wf(),
            v.spec_dim() == dim,
            forall|i: int| 0 <= i < dim ==> call_ensures(Self::Value::default, (), #[trigger] v.at(i)),
    ;

    /// Creates a vector from the supplied values.
    fn from_vec(values: Vec<Self::Value>) -> (v: Self)
        ensures
            v.wf(),
            v.spec_dim() == values.len(),
            forall|i: int| 0 <= i < values.len() ==> #[trigger] v.at(i) == values[i],
    {
        let mut v = Self::new(values.len());
        let assigned = v.assign_vec(&values);
        assert(assigned is Ok);
        v
    }
}

/// A vector of any dimension.
#[derive(Debug, PartialEq)]
pub struct VectorVar<T> {
    values: Vec<T>,
}

impl<T: Copy + Default> VariableVector for VectorVar<T> {
    fn new(dim: usize) -> (v: Self) {
        let value = T::default();
        let mut values: Vec<T> = Vec::new();
        let mut i: usize = 0;
        while i < dim
            invariant
                i <= dim,
                values.len() == i,
                call_ensures(T::default, (), value),
                forall|k: int| 0 <= k < i ==> values[k] == value,
            decreases dim - i,
        {
            values.push(value);
            i = i + 1;
        }
        VectorVar { values }
    }
}

impl<T: Copy + Default> Vector for VectorVar<T> {
    type Value = T;

    open spec fn wf(&self) -> bool {
        true
    }

    closed spec fn spec_dim(&self) -> nat {
        self.values@.len()
    }

    closed spec fn at(&self, index: int) -> T {
        self.values[index]
    }

    fn dim(&self) -> (n: usize) {
        self.values.len()
    }

    fn get(&self, index: usize) -> (value: T) {
        self.values[index]
    }

    fn set(&mut self, index: usize, value: T) {
        self.values[index] = value;
    }
}

/// A vector whose dimension is part of its type.
pub trait FixedVector: Vector {
    /// Creates a vector with every entry at the default value.
    fn new() -> (v: Self)
        ensures
            v.wf(),
            forall|i: int|
                0 <= i < v.spec_dim() ==> call_ensures(Self::Value::default, (), #[trigger] v.at(i)),
    ;
}

/// A vector of the plane.
pub trait Vector2: FixedVector {
    /// Creates a vector for the given coordinates.
    fn from_values(x: Self::Value, y: Self::Value) -> (v: Self)
        ensures
            v.wf(),
            v.spec_dim() == 2,
            v.at(0) == x,
            v.at(1) == y,
    ;

    /// Gets the x coordinate.
    fn get_x(&self) -> (x: Self::Value)
        requires
            self.wf(),
            self.spec_dim() == 2,
        ensures
            x == self.at(0),
    {
        self.get(0)
    }

    /// Sets the x coordinate.
    fn set_x(&mut self, value: Self::Value)
        requires
            old(self).wf(),
            old(self).spec_dim() == 2,
        ensures
            final(self).wf(),
            final(self).spec_dim() == 2,
            final(self).at(0) == value,
            final(self).at(1) == old(self).at(1),
    {
        self.set(0, value);
    }

    /// Gets the y coordinate.
    fn get_y(&self) -> (y: Self::Value)
        requires
            self.wf(),
            self.spec_dim() == 2,
        ensures
            y == self.at(1),
    {
        self.get(1)
    }

    /// Sets the y coordinate.
    fn set_y(&mut self, value: Self::Value)
        requires
            old(self).wf(),
            old(self).spec_dim() == 2,
        ensures
            final(self).wf(),
            final(self).spec_dim() == 2,
            final(self).at(0) == old(self).at(0),
            final(self).at(1) == value,
    {
        self.set(1, value);
    }
}

/// A vector of two entries.
#[derive(Copy, Clone, Debug, PartialEq)]
pub struct Vec2<T> {
    pub values: [T; 2],
}

impl<T: Copy + Default> Vec2<T> {
    /// The x coordinate.
    pub open spec fn x(&self) -> T {
        self.values[0]
    }

    /// The y coordinate.
    pub open spec fn y(&self) -> T {
        self.values[1]
    }

    /// Creates a vector using the supplied array.
    pub fn from_array(values: [T; 2]) -> (v: Self)
        ensures
            v.values == values,
    {
        Vec2 { values }
    }
}

/// The point with the given coordinates.
pub open spec fn point<T: Copy + Default>(x: T, y: T) -> Vec2<T> {
    Vec2 { values: [x, y] }
}

impl<T: Copy + Default> Vector for Vec2<T> {
    type Value = T;

    open spec fn wf(&self) -> bool {
        true
    }

    open spec fn spec_dim(&self) -> nat {
        2
    }

    open spec fn at(&self, index: int) -> T {
        self.values[index]
    }

    fn dim(&self) -> (n: usize) {
        2
    }

    fn get(&self, index: usize) -> (value: T) {
        self.values[index]
    }

    fn set(&mut self, index: usize, value: T) {
        self.values[index] = value;
    }
}

impl<T: Copy + Default> FixedVector for Vec2<T> {
    fn new() -> (v: Self) {
        let value = T::default();
        Vec2 { values: [value, value] }
    }
}

impl<T: Copy + Default> Vector2 for Vec2<T> {
    fn from_values(x: T, y: T) -> (v: Self)
        ensures
            v == point(x, y),
    {
        let v = Vec2 { values: [x, y] };
        assert(v.values =~= point(x, y).values);
        v
    }
}

/// A vector of space.
pub trait Vector3: FixedVector {
    /// Creates a vector for the given coordinates.
    fn from_values(x: Self::Value, y: Self::Value, z: Self::Value) -> (v: Self)
        ensures
            v.wf(),
            v.spec_dim() == 3,
            v.at(0) == x,
            v.at(1) == y,
            v.at(2) == z,
    ;

    /// Gets the x coordinate.
    fn get_x(&self) -> (x: Self::Value)
        requires
            self.wf(),
            self.spec_dim() == 3,
        ensures
            x == self.at(0),
    {
        self.get(0)
    }

    /// Sets the x coordinate.
    fn set_x(&mut self, value: Self::Value)
        requires
            old(self).wf(),
            old(self).spec_dim() == 3,
        ensures
            final(self).wf(),
            final(self).spec_dim() == 3,
            final(self).at(0) == value,
            final(self).at(1) == old(self).at(1),
            final(self).at(2) == old(self).at(2),
    {
        self.set(0, value);
    }

    /// Gets the y coordinate.
    fn get_y(&self) -> (y: Self::Value)
        requires
            self.wf(),
            self.spec_dim() == 3,
        ensures
            y == self.at(1),
    {
        self.get(1)
    }

    /// Sets the y coordinate.
    fn set_y(&mut self, value: Self::Value)
        requires
            old(self).wf(),
            old(self).spec_dim() == 3,
        ensures
            final(self).wf(),
            final(self).spec_dim() == 3,
            final(self).at(0) == old(self).at(0),
            final(self).at(1) == value,
            final(self).at(2) == old(self).at(2),
    {
        self.set(1, value);
    }

    /// Gets the z coordinate.
    fn get_z(&self) -> (z: Self::Value)
        requires
            self.wf(),
            self.spec_dim() == 3,
        ensures
            z == self.at(2),
    {
        self.get(2)
    }

    /// Sets the z coordinate.
    fn set_z(&mut self, value: Self::Value)
        requires
            old(self).wf(),
            old(self).spec_dim() == 3,
        ensures
            final(self).wf(),
            final(self).spec_dim() == 3,
            final(self).at(0) == old(self).at(0),
            final(self).at(1) == old(self).at(1),
            final(self).at(2) == value,
    {
        self.set(2, value);
    }
}

/// A vector of three entries.
#[derive(Copy, Clone, Debug, PartialEq)]
pub struct Vec3<T> {
    pub values: [T; 3],
}

impl<T: Copy + Default> Vec3<T> {
    /// Creates a vector using the supplied array.
    pub fn from_array(values: [T; 3]) -> (v: Self)
        ensures
            v.values == values,
    {
        Vec3 { values }
    }
}

impl<T: Copy + Default> Vector for Vec3<T> {
    type Value = T;

    open spec fn wf(&self) -> bool {
        true
    }

    open spec fn spec_dim(&self) -> nat {
        3
    }

    open spec fn at(&self, index: int) -> T {
        self.values[index]
    }

    fn dim(&self) -> (n: usize) {
        3
    }

    fn get(&self, index: usize) -> (value: T) {
        self.values[index]
    }

    fn set(&mut self, index: usize, value: T) {
        self.values[index] = value;
    }
}

impl<T: Copy + Default> FixedVector for Vec3<T> {
    fn new() -> (v: Self) {
        let value = T::default();
        Vec3 { values: [value, value, value] }
    }
}

impl<T: Copy + Default> Vector3 for Vec3<T> {
    fn from_values(x: T, y: T, z: T) -> (v: Self) {
        Vec3 { values: [x, y, z] }
    }
}

impl<T: Copy + Default + Add<Output = T>> Add for Vec2<T> {
    type Output = Vec2<T>;

    /// The sum of two vectors, entry by entry.
    fn add(self, other: Self) -> (result: Self) {
        Vec2 { values: [self.values[0] + other.values[0], self.values[1] + other.values[1]] }
    }
}

impl<T: Copy + Default + Add<Output = T>> vstd::std_specs::ops::AddSpecImpl for Vec2<T> {
    open spec fn obeys_add_spec() -> bool {
        T::obeys_add_spec()
    }

    open spec fn add_req(self, other: Self) -> bool {
        self.values[0].add_req(other.values[0]) && self.values[1].add_req(other.values[1])
    }

    open spec fn add_spec(self, other: Self) -> Self {
        Vec2 {
            values: [
                self.values[0].add_spec(other.values[0]),
                self.values[1].add_spec(other.values[1]),
            ],
        }
    }
}

impl<T: Copy + Default + Sub<Output = T>> Sub for Vec2<T> {
    type Output = Vec2<T>;

    /// The difference of two vectors, entry by entry.
    fn sub(self, other: Self) -> (result: Self) {
        Vec2 { values: [self.values[0] - other.values[0], self.values[1] - other.values[1]] }
    }
}

impl<T: Copy + Default + Sub<Output = T>> vstd::std_specs::ops::SubSpecImpl for Vec2<T> {
    open spec fn obeys_sub_spec() -> bool {
        T::obeys_sub_spec()
    }

    open spec fn sub_req(self, other: Self) -> bool {
        self.values[0].sub_req(other.values[0]) && self.values[1].sub_req(other.values[1])
    }

    open spec fn sub_spec(self, other: Self) -> Self {
        Vec2 {
            values: [
                self.values[0].sub_spec(other.values[0]),
                self.values[1].sub_spec(other.values[1]),
            ],
        }
    }
}

impl<T: Copy + Default + Neg<Output = T>> Neg for Vec2<T> {
    type Output = Vec2<T>;

    /// The vector with every entry negated.
    fn neg(self) -> (result: Self) {
        Vec2 { values: [self.values[0].neg(), self.values[1].neg()] }
    }
}

impl<T: Copy + Default + Neg<Output = T>> vstd::std_specs::ops::NegSpecImpl for Vec2<T> {
    open spec fn obeys_neg_spec() -> bool {
        T::obeys_neg_spec()
    }

    open spec fn neg_req(self) -> bool {
        self.values[0].neg_req() && self.values[1].neg_req()
    }

    open spec fn neg_spec(self) -> Self {
        Vec2 { values: [self.values[0].neg_spec(), self.values[1].neg_spec()] }
    }
}

impl<T: Copy + Default + Mul<Output = T>> Mul<T> for Vec2<T> {
    type Output = Vec2<T>;

    /// The vector with every entry multiplied by a scalar.
    fn mul(self, other: T) -> (result: Self) {
        Vec2 { values: [self.values[0] * other, self.values[1] * other] }
    }
}

impl<T: Copy + Default + Mul<Output = T>> vstd::std_specs::ops::MulSpecImpl<T> for Vec2<T> {
    open spec fn obeys_mul_spec() -> bool {
        T::obeys_mul_spec()
    }

    open spec fn mul_req(self, other: T) -> bool {
        self.values[0].mul_req(other) && self.values[1].mul_req(other)
    }

    open spec fn mul_spec(self, other: T) -> Self {
        Vec2 { values: [self.values[0].mul_spec(other), self.values[1].mul_spec(other)] }
    }
}

impl<T: Copy + Default + Div<Output = T>> Div<T> for Vec2<T> {
    type Output = Vec2<T>;

    /// The vector with every entry divided by a scalar.
    fn div(self, other: T) -> (result: Self) {
        Vec2 { values: [self.values[0] / other, self.values[1] / other] }
    }
}

impl<T: Copy + Default + Div<Output = T>> vstd::std_specs::ops::DivSpecImpl<T> for Vec2<T> {
    open spec fn obeys_div_spec() -> bool {
        T::obeys_div_spec()
    }

    open spec fn div_req(self, other: T) -> bool {
        self.values[0].div_req(other) && self.values[1].div_req(other)
    }

    open spec fn div_spec(self, other: T) -> Self {
        Vec2 { values: [self.values[0].div_spec(other), self.values[1].div_spec(other)] }
    }
}

impl<T: Copy + Default + Add<Output = T>> Add for Vec3<T> {
    type Output = Vec3<T>;

    /// The sum of two vectors, entry by entry.
    fn add(self, other: Self) -> (result: Self) {
        Vec3 {
            values: [
                self.values[0] + other.values[0],
                self.values[1] + other.values[1],
                self.values[2] + other.values[2],
            ],
        }
    }
}

impl<T: Copy + Default + Add<Output = T>> vstd::std_specs::ops::AddSpecImpl for Vec3<T> {
    open spec fn obeys_add_spec() -> bool {
        T::obeys_add_spec()
    }

    open spec fn add_req(self, other: Self) -> bool {
        self.values[0].add_req(other.values[0])
            && self.values[1].add_req(other.values[1])
            && self.values[2].add_req(other.values[2])
    }

    open spec fn add_spec(self, other: Self) -> Self {
        Vec3 {
            values: [
                self.values[0].add_spec(other.values[0]),
                self.values[1].add_spec(other.values[1]),
                self.values[2].add_spec(other.values[2]),
            ],
        }
    }
}

impl<T: Copy + Default + Sub<Output = T>> Sub for Vec3<T> {
    type Output = Vec3<T>;

    /// The difference of two vectors, entry by entry.
    fn sub(self, other: Self) -> (result: Self) {
        Vec3 {
            values: [
                self.values[0] - other.values[0],
                self.values[1] - other.values[1],
                self.values[2] - other.values[2],
            ],
        }
    }
}

impl<T: Copy + Default + Sub<Output = T>> vstd::std_specs::ops::SubSpecImpl for Vec3<T> {
    open spec fn obeys_sub_spec() -> bool {
        T::obeys_sub_spec()
    }

    open spec fn sub_req(self, other: Self) -> bool {
        self.values[0].sub_req(other.values[0])
            && self.values[1].sub_req(other.values[1])
            && self.values[2].sub_req(other.values[2])
    }

    open spec fn sub_spec(self, other: Self) -> Self {
        Vec3 {
            values: [
                self.values[0].sub_spec(other.values[0]),
                self.values[1].sub_spec(other.values[1]),
                self.values[2].sub_spec(other.values[2]),
            ],
        }
    }
}

impl<T: Copy + Default + Neg<Output = T>> Neg for Vec3<T> {
    type Output = Vec3<T>;

    /// The vector with every entry negated.
    fn neg(self) -> (result: Self) {
        Vec3 { values: [self.values[0].neg(), self.values[1].neg(), self.values[2].neg()] }
    }
}

impl<T: Copy + Default + Neg<Output = T>> vstd::std_specs::ops::NegSpecImpl for Vec3<T> {
    open spec fn obeys_neg_spec() -> bool {
        T::obeys_neg_spec()
    }

    open spec fn neg_req(self) -> bool {
        self.values[0].neg_req() && self.values[1].neg_req() && self.values[2].neg_req()
    }

    open spec fn neg_spec(self) -> Self {
        Vec3 {
            values: [
                self.values[0].neg_spec(),
                self.values[1].neg_spec(),
                self.values[2].neg_spec(),
            ],
        }
    }
}

impl<T: Copy + Default + Mul<Output = T>> Mul<T> for Vec3<T> {
    type Output = Vec3<T>;

    /// The vector with every entry multiplied by a scalar.
    fn mul(self, other: T) -> (result: Self) {
        Vec3 { values: [self.values[0] * other, self.values[1] * other, self.values[2] * other] }
    }
}

impl<T: Copy + Default + Mul<Output = T>> vstd::std_specs::ops::MulSpecImpl<T> for Vec3<T> {
    open spec fn obeys_mul_spec() -> bool {
        T::obeys_mul_spec()
    }

    open spec fn mul_req(self, other: T) -> bool {
        self.values[0].mul_req(other)
            && self.values[1].mul_req(other)
            && self.values[2].mul_req(other)
    }

    open spec fn mul_spec(self, other: T) -> Self {
        Vec3 {
            values: [
                self.values[0].mul_spec(other),
                self.values[1].mul_spec(other),
                self.values[2].mul_spec(other),
            ],
        }
    }
}

impl<T: Copy + Default + Div<Output = T>> Div<T> for Vec3<T> {
    type Output = Vec3<T>;

    /// The vector with every entry divided by a scalar.
    fn div(self, other: T) -> (result: Self) {
        Vec3 { values: [self.values[0] / other, self.values[1] / other, self.values[2] / other] }
    }
}

impl<T: Copy + Default + Div<Output = T>> vstd::std_specs::ops::DivSpecImpl<T> for Vec3<T> {
    open spec fn obeys_div_spec() -> bool {
        T::obeys_div_spec()
    }

    open spec fn div_req(self, other: T) -> bool {
        self.values[0].div_req(other)
            && self.values[1].div_req(other)
            && self.values[2].div_req(other)
    }

    open spec fn div_spec(self, other: T) -> Self {
        Vec3 {
            values: [
                self.values[0].div_spec(other),
                self.values[1].div_spec(other),
                self.values[2].div_spec(other),
            ],
        }
    }
}

} // verus!
