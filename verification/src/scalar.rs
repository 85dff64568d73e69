//! What the numeric code assumes of its scalar type.
//!
//! The library is generic over the element type of its matrices, vectors and
//! points. It computes with the operators of `core::ops` and the comparisons of
//! `PartialOrd`, takes zero from `Default` and the constants one, two and four
//! from `From<u8>`; a square root, where one is needed, is handed in as a
//! function. Two predicates describe a scalar type `T`:
//!
//! * `total_ops::<T>()`: every operator may be applied to every pair of values
//!   (none of them panics). Functions that chain several operations ask for this
//!   in their `requires`.
//! * `exact_ops::<T>()`: every operator is a function of its arguments, namely the
//!   one that the corresponding `*_spec` function of vstd names. Where this
//!   holds, the contracts pin results down value by value, as terms over those
//!   functions in the order in which the code applies them. Where it does not,
//!   the contracts still state everything that does not hang on a computed
//!   value: shapes, indices, links, and which references resolve.
//!
//! Nothing is assumed of the algebra of `T` in these contracts: no law of
//! associativity or distributivity enters their proofs, so that they hold as
//! they stand for arithmetic that rounds. What the results mean where the
//! arithmetic is that of a field is stated apart, under the premises of the
//! module `field`.

use vstd::prelude::*;
use vstd::std_specs::cmp::{PartialEqSpec, PartialOrdIs, PartialOrdSpec};
use vstd::std_specs::convert::FromSpec;
use vstd::std_specs::ops::{AddSpec, DivSpec, MulSpec, NegSpec, SubSpec};
use core::ops::{Add, Div, Mul, Neg, Sub};

verus! {

/// The scalar types of the numeric kernel: copyable values with the four
/// arithmetic operators, negation, an order and a default value (zero). Every
/// type that has these is a `Field`.
pub trait Field: Copy + Default + PartialOrd + Add<Output = Self> + Sub<Output = Self> + Mul<
    Output = Self,
> + Div<Output = Self> + Neg<Output = Self> {

}

impl<T> Field for T where
    T: Copy + Default + PartialOrd + Add<Output = T> + Sub<Output = T> + Mul<Output = T> + Div<
        Output = T,
    > + Neg<Output = T>,
 {

}

/// The scalar types of the geometric code: a `Field` that also has the small
/// integer constants. Every type that has these is a `Scalar`.
pub trait Scalar: Field + From<u8> {

}

impl<T: Field + From<u8>> Scalar for T {

}

/// The value that `T::default()` returns, where it always returns the same one.
pub open spec fn zero<T: Default>() -> T {
    choose|z: T| call_ensures(T::default, (), z)
}

/// `T::default()` has exactly one possible result.
pub open spec fn exact_default<T: Default>() -> bool {
    forall|z: T| call_ensures(T::default, (), z) ==> z == zero::<T>()
}

/// Every arithmetic operator accepts every pair of values of `T`.
pub open spec fn total_ops<T: Field>() -> bool {
    &&& forall|a: T, b: T| #[trigger] a.add_req(b)
    &&& forall|a: T, b: T| #[trigger] a.sub_req(b)
    &&& forall|a: T, b: T| #[trigger] a.mul_req(b)
    &&& forall|a: T, b: T| #[trigger] a.div_req(b)
    &&& forall|a: T| #[trigger] a.neg_req()
}

/// Every operator and comparison of `T` computes what its `*_spec` function says,
/// and `T::default()` is a single value.
pub open spec fn exact_ops<T: Field>() -> bool {
    &&& T::obeys_add_spec()
    &&& T::obeys_sub_spec()
    &&& T::obeys_mul_spec()
    &&& T::obeys_div_spec()
    &&& T::obeys_neg_spec()
    &&& T::obeys_eq_spec()
    &&& T::obeys_partial_cmp_spec()
    &&& exact_default::<T>()
}

/// `exact_ops` together with exact conversion of the small integer constants.
pub open spec fn exact_scalar<T: Scalar>() -> bool {
    &&& exact_ops::<T>()
    &&& <T as FromSpec<u8>>::obeys_from_spec()
}

/// The scalar that stands for the small integer `n`.
pub open spec fn constant<T: Scalar>(n: u8) -> T {
    <T as FromSpec<u8>>::from_spec(n)
}

/// `a < b` in the order of `T`.
pub open spec fn lt<T: PartialOrd>(a: T, b: T) -> bool {
    a.is_lt(&b)
}

/// `a <= b` in the order of `T`.
pub open spec fn le<T: PartialOrd>(a: T, b: T) -> bool {
    a.is_le(&b)
}

/// `a > b` in the order of `T`.
pub open spec fn gt<T: PartialOrd>(a: T, b: T) -> bool {
    a.is_gt(&b)
}

/// `a >= b` in the order of `T`.
pub open spec fn ge<T: PartialOrd>(a: T, b: T) -> bool {
    a.is_ge(&b)
}

/// `a == b` as `T` compares values (which need not be identity).
pub open spec fn same<T: PartialEq>(a: T, b: T) -> bool {
    a.eq_spec(&b)
}

/// A one-argument function that may be called on every value.
pub open spec fn total_fn<T, F: Fn(T) -> T>(f: &F) -> bool {
    forall|x: T| call_requires(f, (x,))
}

/// Zero, as an executable value.
pub fn make_zero<T: Default>() -> (z: T)
    ensures
        call_ensures(T::default, (), z),
        exact_default::<T>() ==> z == zero::<T>(),
{
    T::default()
}

/// The scalar for a small integer constant.
pub fn make_constant<T: Scalar>(n: u8) -> (c: T)
    ensures
        exact_scalar::<T>() ==> c == constant::<T>(n),
{
    T::from(n)
}

} // verus!
