//! Quadratic equations `a x^2 + b x + c = 0`.

use vstd::prelude::*;
use vstd::std_specs::ops::{AddSpec, DivSpec, MulSpec, NegSpec, SubSpec};
use crate::field::{
    has_four,
    has_halves,
    is_field,
    lemma_add_assoc,
    lemma_add_comm,
    lemma_add_neg,
    lemma_add_zero,
    lemma_balance,
    lemma_distribute,
    lemma_distribute_right,
    lemma_distribute_sub,
    lemma_div_mul,
    lemma_double,
    lemma_double_product,
    lemma_factor_three,
    lemma_mul_assoc,
    lemma_mul_comm,
    lemma_neg_mul,
    lemma_neg_neg,
    lemma_quadruple,
    lemma_quadruple_sum,
    lemma_square_sum,
    lemma_sub,
    lemma_sub_add_three,
    lemma_zero_add,
    lemma_zero_mul,
    lemma_zero_product,
};
use crate::scalar::{
    constant,
    exact_scalar,
    gt,
    lt,
    make_constant,
    make_zero,
    total_fn,
    total_ops,
    zero,
    Scalar,
};

verus! {

/// The possible solutions of a quadratic equation.
#[derive(Debug, PartialEq, Clone, Copy)]
pub enum Solution<T> {
    /// There are no roots.
    NoRoots,
    /// There is one (double) root.
    One(T),
    /// There are two distinct roots, the smaller one first.
    Two(T, T),
}

/// The discriminant `b^2 - 4ac`.
pub open spec fn discriminant<T: Scalar>(a: T, b: T, c: T) -> T {
    b.mul_spec(b).sub_spec(constant::<T>(4).mul_spec(a).mul_spec(c))
}

/// The solution of the equation, given the square root `root` of its
/// discriminant: two roots in ascending order where the discriminant is above
/// zero, none where it is below zero, else the double root `-b / 2a`.
pub open spec fn solution_with_root<T: Scalar>(a: T, b: T, c: T, root: T) -> Solution<T> {
    let d = discriminant(a, b, c);
    if gt(d, zero::<T>()) {
        let div = constant::<T>(2).mul_spec(a);
        let x1 = b.neg_spec().sub_spec(root).div_spec(div);
        let x2 = b.neg_spec().add_spec(root).div_spec(div);
        if lt(x1, x2) {
            Solution::Two(x1, x2)
        } else {
            Solution::Two(x2, x1)
        }
    } else if lt(d, zero::<T>()) {
        Solution::NoRoots
    } else {
        Solution::One(b.neg_spec().div_spec(constant::<T>(2).mul_spec(a)))
    }
}

/// Solves the quadratic equation with the given coefficients. `sqrt` is the
/// square root of the scalar type; it is called on the discriminant, and only
/// where the discriminant is above zero.
///
/// The coefficient `quadratic` is meant to be other than zero. With zero the
/// result is whatever the divisions of the scalar type make of it.
pub fn solve<T: Scalar, F: Fn(T) -> T>(quadratic: T, linear: T, constant: T, sqrt: &F) -> (solution:
    Solution<T>)
    requires
        total_ops::<T>(),
        total_fn(sqrt),
    ensures
        exact_scalar::<T>() ==> exists|root: T|
            {
                &&& gt(discriminant(quadratic, linear, constant), zero::<T>()) ==> call_ensures(
                    sqrt,
                    (discriminant(quadratic, linear, constant),),
                    root,
                )
                &&& solution == #[trigger] solution_with_root(quadratic, linear, constant, root)
            },
{
    let discr = (linear * linear) - make_constant::<T>(4) * quadratic * constant;
    if discr > make_zero::<T>() {
        let discr_sqrt = sqrt(discr);
        let div = make_constant::<T>(2) * quadratic;
        let x1 = (linear.neg() - discr_sqrt) / div;
        let x2 = (linear.neg() + discr_sqrt) / div;
        let solution = if x1 < x2 {
            Solution::Two(x1, x2)
        } else {
            Solution::Two(x2, x1)
        };
        proof {
            if exact_scalar::<T>() {
                assert(solution == solution_with_root(quadratic, linear, constant, discr_sqrt));
            }
        }
        solution
    } else if discr < make_zero::<T>() {
        proof {
            if exact_scalar::<T>() {
                assert(Solution::<T>::NoRoots == solution_with_root(
                    quadratic,
                    linear,
                    constant,
                    discr,
                ));
            }
        }
        Solution::NoRoots
    } else {
        let solution = Solution::One(linear.neg() / (make_constant::<T>(2) * quadratic));
        proof {
            if exact_scalar::<T>() {
                assert(solution == solution_with_root(quadratic, linear, constant, discr));
            }
        }
        solution
    }
}

/// The value of `a x^2 + b x + c`.
pub open spec fn value_at<T: Scalar>(a: T, b: T, c: T, x: T) -> T {
    a.mul_spec(x).mul_spec(x).add_spec(b.mul_spec(x)).add_spec(c)
}

/// Over a field, `(-b + s) / 2a` is a root of the equation, where `s` squared
/// is the discriminant and `a` is not zero.
proof fn lemma_root<T: Scalar>(a: T, b: T, c: T, s: T)
    requires
        is_field::<T>(),
        has_halves::<T>(),
        has_four::<T>(),
        a != zero::<T>(),
        s.mul_spec(s) == discriminant(a, b, c),
    ensures
        value_at(a, b, c, b.neg_spec().add_spec(s).div_spec(constant::<T>(2).mul_spec(a))) == zero::<
            T,
        >(),
{
    let z = zero::<T>();
    let two = constant::<T>(2);
    let four = constant::<T>(4);
    let d = two.mul_spec(a);
    let n = b.neg_spec().add_spec(s);
    let x = n.div_spec(d);
    let p = a.mul_spec(x);
    let q = p.add_spec(p);
    // twice a x is -b + s
    lemma_double(a);
    if d == z {
        lemma_zero_product(two, a);
    }
    lemma_div_mul(n, d);
    lemma_distribute(x, a, a);
    lemma_mul_comm(x, a);
    assert(q == n);
    // so twice a x and b make s
    lemma_add_comm(n, b);
    lemma_add_assoc(b, b.neg_spec(), s);
    lemma_add_neg(b);
    lemma_zero_add(s);
    assert(q.add_spec(b) == s);
    // the square of that is the discriminant
    let qq = q.mul_spec(q);
    let bb = b.mul_spec(b);
    let qb = q.mul_spec(b);
    let m = four.mul_spec(a).mul_spec(c);
    lemma_square_sum(q, b);
    lemma_sub(bb, m);
    assert(qq.add_spec(bb).add_spec(qb.add_spec(qb)) == bb.add_spec(m.neg_spec()));
    lemma_add_assoc(qq, bb, qb.add_spec(qb));
    lemma_add_comm(bb, qb.add_spec(qb));
    lemma_add_assoc(qq, qb.add_spec(qb), bb);
    lemma_balance(qq.add_spec(qb.add_spec(qb)), bb, m);
    assert(qq.add_spec(qb.add_spec(qb)).add_spec(m) == z);
    // every term is four times a term of a times the value at x
    let pp = p.mul_spec(p);
    let pb = p.mul_spec(b);
    let ac = a.mul_spec(c);
    lemma_double_product(p, p);
    lemma_distribute_right(p, p, b);
    lemma_mul_assoc(four, a, c);
    lemma_quadruple(ac);
    lemma_quadruple_sum(pp, pb, ac);
    let e = pp.add_spec(pb).add_spec(ac);
    lemma_quadruple(e);
    lemma_zero_product(four, e);
    assert(e == z);
    let u = a.mul_spec(x).mul_spec(x);
    let v = b.mul_spec(x);
    lemma_mul_assoc(a, x, p);
    lemma_mul_comm(x, p);
    lemma_mul_assoc(a, x, b);
    lemma_mul_comm(x, b);
    lemma_factor_three(a, u, v, c);
    lemma_zero_product(a, value_at(a, b, c, x));
}

/// Over a field, the roots that the solver names are roots: with `root`
/// squared the discriminant and `quadratic` not zero, the equation holds of
/// both of two roots, and of the one root where the discriminant is zero.
pub proof fn lemma_roots_are_roots<T: Scalar>(quadratic: T, linear: T, constant: T, root: T)
    requires
        is_field::<T>(),
        has_halves::<T>(),
        has_four::<T>(),
        quadratic != zero::<T>(),
        root.mul_spec(root) == discriminant(quadratic, linear, constant),
    ensures
        match solution_with_root(quadratic, linear, constant, root) {
            Solution::Two(x1, x2) => value_at(quadratic, linear, constant, x1) == zero::<T>()
                && value_at(quadratic, linear, constant, x2) == zero::<T>(),
            Solution::One(x) => discriminant(quadratic, linear, constant) == zero::<T>()
                ==> value_at(quadratic, linear, constant, x) == zero::<T>(),
            Solution::NoRoots => true,
        },
{
    let z = zero::<T>();
    let minus = root.neg_spec();
    // the other root belongs to the other square root
    lemma_neg_mul(root, minus);
    lemma_mul_comm(root, minus);
    lemma_neg_mul(root, root);
    lemma_neg_neg(root.mul_spec(root));
    lemma_sub(linear.neg_spec(), root);
    lemma_root(quadratic, linear, constant, root);
    lemma_root(quadratic, linear, constant, minus);
    if discriminant(quadratic, linear, constant) == z {
        lemma_zero_mul(z);
        lemma_add_zero(linear.neg_spec());
        lemma_root(quadratic, linear, constant, z);
    }
}

/// Over a field, the difference of two polynomials has, at every point, the
/// difference of their values.
pub proof fn lemma_value_of_difference<T: Scalar>(p: (T, T, T), q: (T, T, T), x: T)
    requires
        is_field::<T>(),
    ensures
        value_at(q.0.sub_spec(p.0), q.1.sub_spec(p.1), q.2.sub_spec(p.2), x) == value_at(
            q.0,
            q.1,
            q.2,
            x,
        ).sub_spec(value_at(p.0, p.1, p.2, x)),
{
    lemma_distribute_sub(q.0, p.0, x);
    lemma_distribute_sub(q.0.mul_spec(x), p.0.mul_spec(x), x);
    lemma_distribute_sub(q.1, p.1, x);
    lemma_sub_add_three(
        q.0.mul_spec(x).mul_spec(x),
        p.0.mul_spec(x).mul_spec(x),
        q.1.mul_spec(x),
        p.1.mul_spec(x),
        q.2,
        p.2,
    );
}

} // verus!
