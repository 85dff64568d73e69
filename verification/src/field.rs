//! The laws of a field, as an assumption that a scalar type may meet, and what
//! follows from them.
//!
//! No executable function of the library asks for these laws. They are the
//! premise of the theorems that say what the numeric kernel computes where the
//! arithmetic is exact.

use vstd::prelude::*;
use vstd::std_specs::ops::{AddSpec, DivSpec, MulSpec, NegSpec, SubSpec};
use crate::scalar::{constant, ge, gt, le, same, zero, Field, Scalar};

verus! {

/// The operators of `T` obey the laws of a field whose zero is the default
/// value, and `T` compares values by identity.
#[verifier::opaque]
pub open spec fn is_field<T: Field>() -> bool {
    let z = zero::<T>();
    &&& forall|a: T, b: T| #[trigger] same(a, b) <==> a == b
    &&& forall|a: T, b: T| #[trigger] a.add_spec(b) == b.add_spec(a)
    &&& forall|a: T, b: T, c: T| #[trigger]
        a.add_spec(b).add_spec(c) == a.add_spec(b.add_spec(c))
    &&& forall|a: T| #[trigger] a.add_spec(z) == a
    &&& forall|a: T| #[trigger] a.add_spec(a.neg_spec()) == z
    &&& forall|a: T, b: T| #[trigger] a.sub_spec(b) == a.add_spec(b.neg_spec())
    &&& forall|a: T, b: T| #[trigger] a.mul_spec(b) == b.mul_spec(a)
    &&& forall|a: T, b: T, c: T| #[trigger]
        a.mul_spec(b).mul_spec(c) == a.mul_spec(b.mul_spec(c))
    &&& forall|a: T, b: T, c: T| #[trigger]
        a.mul_spec(b.add_spec(c)) == a.mul_spec(b).add_spec(a.mul_spec(c))
    &&& forall|a: T, b: T| b != z ==> #[trigger] a.div_spec(b).mul_spec(b) == a
    &&& forall|a: T, b: T| #[trigger] a.mul_spec(b) == z ==> a == z || b == z
}

/// Values that compare equal are the same value.
pub proof fn lemma_same<T: Field>(a: T, b: T)
    requires
        is_field::<T>(),
    ensures
        same(a, b) <==> a == b,
{
    reveal(is_field);
}

/// `a + b = b + a`.
pub proof fn lemma_add_comm<T: Field>(a: T, b: T)
    requires
        is_field::<T>(),
    ensures
        a.add_spec(b) == b.add_spec(a),
{
    reveal(is_field);
}

/// `(a + b) + c = a + (b + c)`.
pub proof fn lemma_add_assoc<T: Field>(a: T, b: T, c: T)
    requires
        is_field::<T>(),
    ensures
        a.add_spec(b).add_spec(c) == a.add_spec(b.add_spec(c)),
{
    reveal(is_field);
}

/// `a + 0 = a`.
pub proof fn lemma_add_zero<T: Field>(a: T)
    requires
        is_field::<T>(),
    ensures
        a.add_spec(zero::<T>()) == a,
{
    reveal(is_field);
}

/// `a + -a = 0`.
pub proof fn lemma_add_neg<T: Field>(a: T)
    requires
        is_field::<T>(),
    ensures
        a.add_spec(a.neg_spec()) == zero::<T>(),
{
    reveal(is_field);
}

/// `a - b = a + -b`.
pub proof fn lemma_sub<T: Field>(a: T, b: T)
    requires
        is_field::<T>(),
    ensures
        a.sub_spec(b) == a.add_spec(b.neg_spec()),
{
    reveal(is_field);
}

/// `a b = b a`.
pub proof fn lemma_mul_comm<T: Field>(a: T, b: T)
    requires
        is_field::<T>(),
    ensures
        a.mul_spec(b) == b.mul_spec(a),
{
    reveal(is_field);
}

/// `(a b) c = a (b c)`.
pub proof fn lemma_mul_assoc<T: Field>(a: T, b: T, c: T)
    requires
        is_field::<T>(),
    ensures
        a.mul_spec(b).mul_spec(c) == a.mul_spec(b.mul_spec(c)),
{
    reveal(is_field);
}

/// `a (b + c) = a b + a c`.
pub proof fn lemma_distribute<T: Field>(a: T, b: T, c: T)
    requires
        is_field::<T>(),
    ensures
        a.mul_spec(b.add_spec(c)) == a.mul_spec(b).add_spec(a.mul_spec(c)),
{
    reveal(is_field);
}

/// `(a / b) b = a`, where `b` is not zero.
pub proof fn lemma_div_mul<T: Field>(a: T, b: T)
    requires
        is_field::<T>(),
        b != zero::<T>(),
    ensures
        a.div_spec(b).mul_spec(b) == a,
{
    reveal(is_field);
}

/// A product is zero only if a factor is.
pub proof fn lemma_zero_product<T: Field>(a: T, b: T)
    requires
        is_field::<T>(),
        a.mul_spec(b) == zero::<T>(),
    ensures
        a == zero::<T>() || b == zero::<T>(),
{
    reveal(is_field);
}

/// `0 + a = a`.
pub proof fn lemma_zero_add<T: Field>(a: T)
    requires
        is_field::<T>(),
    ensures
        zero::<T>().add_spec(a) == a,
{
    lemma_add_comm(zero::<T>(), a);
    lemma_add_zero(a);
}

/// `a + c = b + c` only if `a = b`.
pub proof fn lemma_add_cancel<T: Field>(a: T, b: T, c: T)
    requires
        is_field::<T>(),
        a.add_spec(c) == b.add_spec(c),
    ensures
        a == b,
{
    let n = c.neg_spec();
    lemma_add_assoc(a, c, n);
    lemma_add_assoc(b, c, n);
    lemma_add_neg(c);
    lemma_add_zero(a);
    lemma_add_zero(b);
}

/// `a 0 = 0` and `0 a = 0`.
pub proof fn lemma_zero_mul<T: Field>(a: T)
    requires
        is_field::<T>(),
    ensures
        a.mul_spec(zero::<T>()) == zero::<T>(),
        zero::<T>().mul_spec(a) == zero::<T>(),
{
    let z = zero::<T>();
    let p = a.mul_spec(z);
    lemma_add_zero(z);
    lemma_distribute(a, z, z);
    lemma_zero_add(p);
    lemma_add_cancel(p, z, p);
    lemma_mul_comm(a, z);
}

/// `a + b = 0` only if `b = -a`.
pub proof fn lemma_neg_unique<T: Field>(a: T, b: T)
    requires
        is_field::<T>(),
        a.add_spec(b) == zero::<T>(),
    ensures
        b == a.neg_spec(),
{
    lemma_add_neg(a);
    lemma_add_comm(a, b);
    lemma_add_comm(a, a.neg_spec());
    lemma_add_cancel(b, a.neg_spec(), a);
}

/// `-0 = 0`.
pub proof fn lemma_neg_zero<T: Field>()
    requires
        is_field::<T>(),
    ensures
        zero::<T>().neg_spec() == zero::<T>(),
{
    lemma_add_zero(zero::<T>());
    lemma_neg_unique(zero::<T>(), zero::<T>());
}

/// `(a + b) + (c + d) = (a + c) + (b + d)`.
pub proof fn lemma_add_swap<T: Field>(a: T, b: T, c: T, d: T)
    requires
        is_field::<T>(),
    ensures
        a.add_spec(b).add_spec(c.add_spec(d)) == a.add_spec(c).add_spec(b.add_spec(d)),
{
    lemma_add_assoc(a, b, c.add_spec(d));
    lemma_add_assoc(b, c, d);
    lemma_add_comm(b, c);
    lemma_add_assoc(c, b, d);
    lemma_add_assoc(a, c, b.add_spec(d));
}

/// `-(a + b) = -a + -b`.
pub proof fn lemma_neg_add<T: Field>(a: T, b: T)
    requires
        is_field::<T>(),
    ensures
        a.add_spec(b).neg_spec() == a.neg_spec().add_spec(b.neg_spec()),
{
    lemma_add_swap(a, b, a.neg_spec(), b.neg_spec());
    lemma_add_neg(a);
    lemma_add_neg(b);
    lemma_add_zero(zero::<T>());
    lemma_neg_unique(a.add_spec(b), a.neg_spec().add_spec(b.neg_spec()));
}

/// `(-a) b = -(a b)`.
pub proof fn lemma_neg_mul<T: Field>(a: T, b: T)
    requires
        is_field::<T>(),
    ensures
        a.neg_spec().mul_spec(b) == a.mul_spec(b).neg_spec(),
{
    let na = a.neg_spec();
    // b a + b (-a) = b (a + -a) = b 0 = 0
    lemma_distribute(b, a, na);
    lemma_add_neg(a);
    lemma_zero_mul(b);
    lemma_mul_comm(b, a);
    lemma_mul_comm(b, na);
    lemma_neg_unique(a.mul_spec(b), na.mul_spec(b));
}

/// `(a + b) c = a c + b c`.
pub proof fn lemma_distribute_right<T: Field>(a: T, b: T, c: T)
    requires
        is_field::<T>(),
    ensures
        a.add_spec(b).mul_spec(c) == a.mul_spec(c).add_spec(b.mul_spec(c)),
{
    lemma_mul_comm(a.add_spec(b), c);
    lemma_distribute(c, a, b);
    lemma_mul_comm(c, a);
    lemma_mul_comm(c, b);
}

/// `(a - b) c = a c - b c`.
pub proof fn lemma_distribute_sub<T: Field>(a: T, b: T, c: T)
    requires
        is_field::<T>(),
    ensures
        a.sub_spec(b).mul_spec(c) == a.mul_spec(c).sub_spec(b.mul_spec(c)),
{
    lemma_sub(a, b);
    lemma_distribute_right(a, b.neg_spec(), c);
    lemma_neg_mul(b, c);
    lemma_sub(a.mul_spec(c), b.mul_spec(c));
}

/// `(a - b) + (c - d) = (a + c) - (b + d)`.
pub proof fn lemma_sub_add<T: Field>(a: T, b: T, c: T, d: T)
    requires
        is_field::<T>(),
    ensures
        a.sub_spec(b).add_spec(c.sub_spec(d)) == a.add_spec(c).sub_spec(b.add_spec(d)),
{
    lemma_sub(a, b);
    lemma_sub(c, d);
    lemma_add_swap(a, b.neg_spec(), c, d.neg_spec());
    lemma_neg_add(b, d);
    lemma_sub(a.add_spec(c), b.add_spec(d));
}

/// `(u x) a = (u a) x`.
pub proof fn lemma_mul_swap<T: Field>(u: T, x: T, a: T)
    requires
        is_field::<T>(),
    ensures
        u.mul_spec(x).mul_spec(a) == u.mul_spec(a).mul_spec(x),
{
    lemma_mul_assoc(u, x, a);
    lemma_mul_comm(x, a);
    lemma_mul_assoc(u, a, x);
}

/// `-a = 0` only if `a = 0`.
pub proof fn lemma_neg_is_zero<T: Field>(a: T)
    requires
        is_field::<T>(),
        a.neg_spec() == zero::<T>(),
    ensures
        a == zero::<T>(),
{
    lemma_add_neg(a);
    lemma_add_zero(a);
}

/// `0 a - 0 b = 0`.
pub proof fn lemma_zero_combination<T: Field>(a: T, b: T)
    requires
        is_field::<T>(),
    ensures
        zero::<T>().mul_spec(a).sub_spec(zero::<T>().mul_spec(b)) == zero::<T>(),
{
    let z = zero::<T>();
    lemma_zero_mul(a);
    lemma_zero_mul(b);
    lemma_sub(z, z);
    lemma_add_neg(z);
}

/// `(s + u x) a - (t + v x) b = (s a - t b) + (u a - v b) x`.
pub proof fn lemma_combination_step<T: Field>(s: T, u: T, t: T, v: T, x: T, a: T, b: T)
    requires
        is_field::<T>(),
    ensures
        s.add_spec(u.mul_spec(x)).mul_spec(a).sub_spec(t.add_spec(v.mul_spec(x)).mul_spec(b))
            == s.mul_spec(a).sub_spec(t.mul_spec(b)).add_spec(
            u.mul_spec(a).sub_spec(v.mul_spec(b)).mul_spec(x),
        ),
{
    let ux = u.mul_spec(x);
    let vx = v.mul_spec(x);
    lemma_distribute_right(s, ux, a);
    lemma_distribute_right(t, vx, b);
    lemma_sub_add(s.mul_spec(a), t.mul_spec(b), ux.mul_spec(a), vx.mul_spec(b));
    lemma_mul_swap(u, x, a);
    lemma_mul_swap(v, x, b);
    lemma_distribute_sub(u.mul_spec(a), v.mul_spec(b), x);
}

/// `(s + u) a - (t + v) b = (s a - t b) + (u a - v b)`.
pub proof fn lemma_combination_last<T: Field>(s: T, u: T, t: T, v: T, a: T, b: T)
    requires
        is_field::<T>(),
    ensures
        s.add_spec(u).mul_spec(a).sub_spec(t.add_spec(v).mul_spec(b)) == s.mul_spec(a).sub_spec(
            t.mul_spec(b),
        ).add_spec(u.mul_spec(a).sub_spec(v.mul_spec(b))),
{
    lemma_distribute_right(s, u, a);
    lemma_distribute_right(t, v, b);
    lemma_sub_add(s.mul_spec(a), t.mul_spec(b), u.mul_spec(a), v.mul_spec(b));
}

/// `p r - r p = 0`.
pub proof fn lemma_cross_cancel<T: Field>(p: T, r: T)
    requires
        is_field::<T>(),
    ensures
        p.mul_spec(r).sub_spec(r.mul_spec(p)) == zero::<T>(),
{
    lemma_mul_comm(p, r);
    lemma_sub(p.mul_spec(r), r.mul_spec(p));
    lemma_add_neg(p.mul_spec(r));
}

/// `0 a - r b = 0` only if `r = 0`, where `b` is not zero.
pub proof fn lemma_combination_zero<T: Field>(a: T, r: T, b: T)
    requires
        is_field::<T>(),
        b != zero::<T>(),
        zero::<T>().mul_spec(a).sub_spec(r.mul_spec(b)) == zero::<T>(),
    ensures
        r == zero::<T>(),
{
    let z = zero::<T>();
    let rb = r.mul_spec(b);
    lemma_zero_mul(a);
    lemma_sub(z, rb);
    lemma_zero_add(rb.neg_spec());
    lemma_neg_is_zero(rb);
    lemma_zero_product(r, b);
}

/// `0 + h (r / h) = r`, where `h` is not zero.
pub proof fn lemma_pivot_term<T: Field>(h: T, r: T)
    requires
        is_field::<T>(),
        h != zero::<T>(),
    ensures
        zero::<T>().add_spec(h.mul_spec(r.div_spec(h))) == r,
{
    lemma_div_mul(r, h);
    lemma_mul_comm(h, r.div_spec(h));
    lemma_zero_add(h.mul_spec(r.div_spec(h)));
}

/// `(a + t) + (r - t) = a + r`.
pub proof fn lemma_move_term<T: Field>(a: T, t: T, r: T)
    requires
        is_field::<T>(),
    ensures
        a.add_spec(t).add_spec(r.sub_spec(t)) == a.add_spec(r),
{
    lemma_sub(r, t);
    lemma_add_swap(a, t, r, t.neg_spec());
    lemma_add_neg(t);
    lemma_add_zero(a.add_spec(r));
}

/// `a + r = r + -h` only if `a + h = 0`.
pub proof fn lemma_balance<T: Field>(a: T, r: T, h: T)
    requires
        is_field::<T>(),
        a.add_spec(r) == r.add_spec(h.neg_spec()),
    ensures
        a.add_spec(h) == zero::<T>(),
{
    lemma_add_comm(r, h.neg_spec());
    lemma_add_cancel(a, h.neg_spec(), r);
    lemma_add_comm(h.neg_spec(), h);
    lemma_add_neg(h);
}

/// `a + -b = 0` only if `a = b`.
pub proof fn lemma_equal_by_difference<T: Field>(a: T, b: T)
    requires
        is_field::<T>(),
        a.add_spec(b.neg_spec()) == zero::<T>(),
    ensures
        a == b,
{
    lemma_add_neg(b);
    lemma_add_cancel(a, b, b.neg_spec());
}

/// `((0 + a k) + (-b) j) + (p - q) = 0` only if `p + k a = q + j b`.
pub proof fn lemma_line_equation<T: Field>(a: T, k: T, b: T, j: T, p: T, q: T)
    requires
        is_field::<T>(),
        zero::<T>().add_spec(a.mul_spec(k)).add_spec(b.neg_spec().mul_spec(j)).add_spec(
            p.sub_spec(q),
        ) == zero::<T>(),
    ensures
        p.add_spec(k.mul_spec(a)) == q.add_spec(j.mul_spec(b)),
{
    let ak = a.mul_spec(k);
    let bj = b.mul_spec(j);
    lemma_zero_add(ak);
    lemma_neg_mul(b, j);
    lemma_sub(p, q);
    // (ak + -(bj)) + (p + -q) = (ak + p) + (-(bj) + -q) = (ak + p) + -(bj + q)
    lemma_add_swap(ak, bj.neg_spec(), p, q.neg_spec());
    lemma_neg_add(bj, q);
    lemma_equal_by_difference(ak.add_spec(p), bj.add_spec(q));
    lemma_add_comm(ak, p);
    lemma_add_comm(bj, q);
    lemma_mul_comm(a, k);
    lemma_mul_comm(b, j);
}

/// The constant one of `T` is the one of the field, the constant two is one and
/// one, and two is not zero.
#[verifier::opaque]
pub open spec fn has_halves<T: Scalar>() -> bool {
    &&& forall|a: T| #[trigger] a.mul_spec(constant::<T>(1)) == a
    &&& constant::<T>(2) == constant::<T>(1).add_spec(constant::<T>(1))
    &&& constant::<T>(2) != zero::<T>()
}

/// `s / 2 + s / 2 = s`.
pub proof fn lemma_half_sum<T: Scalar>(s: T)
    requires
        is_field::<T>(),
        has_halves::<T>(),
    ensures
        s.div_spec(constant::<T>(2)).add_spec(s.div_spec(constant::<T>(2))) == s,
{
    let one = constant::<T>(1);
    let two = constant::<T>(2);
    let h = s.div_spec(two);
    assert(h.mul_spec(one) == h && two == one.add_spec(one) && two != zero::<T>()) by {
        reveal(has_halves);
    }
    lemma_div_mul(s, two);
    lemma_distribute(h, one, one);
}

/// `-(-a) = a`.
pub proof fn lemma_neg_neg<T: Field>(a: T)
    requires
        is_field::<T>(),
    ensures
        a.neg_spec().neg_spec() == a,
{
    lemma_add_neg(a);
    lemma_add_comm(a, a.neg_spec());
    lemma_neg_unique(a.neg_spec(), a);
}

/// `(m + t) - p = (m - p) + t`.
pub proof fn lemma_sub_move<T: Field>(m: T, t: T, p: T)
    requires
        is_field::<T>(),
    ensures
        m.add_spec(t).sub_spec(p) == m.sub_spec(p).add_spec(t),
{
    let n = p.neg_spec();
    lemma_sub(m.add_spec(t), p);
    lemma_sub(m, p);
    lemma_add_assoc(m, t, n);
    lemma_add_comm(t, n);
    lemma_add_assoc(m, n, t);
}

/// `(m - p) - (m - q) = q - p`.
pub proof fn lemma_sub_sub<T: Field>(m: T, p: T, q: T)
    requires
        is_field::<T>(),
    ensures
        m.sub_spec(p).sub_spec(m.sub_spec(q)) == q.sub_spec(p),
{
    let z = zero::<T>();
    let np = p.neg_spec();
    let nq = q.neg_spec();
    let nm = m.neg_spec();
    lemma_sub(m, p);
    lemma_sub(m, q);
    lemma_sub(m.add_spec(np), m.add_spec(nq));
    lemma_neg_add(m, nq);
    lemma_neg_neg(q);
    // (m + -p) + (-m + q) = (m + -m) + (-p + q) = -p + q = q + -p
    lemma_add_swap(m, np, nm, q);
    lemma_add_neg(m);
    lemma_zero_add(np.add_spec(q));
    lemma_add_comm(np, q);
    lemma_sub(q, p);
}

/// `m - q = -(m - p)`, where `m + m = p + q`.
pub proof fn lemma_halfway<T: Field>(m: T, p: T, q: T)
    requires
        is_field::<T>(),
        m.add_spec(m) == p.add_spec(q),
    ensures
        m.sub_spec(q) == m.sub_spec(p).neg_spec(),
{
    // (m - p) + (m - q) = (m + m) - (p + q) = 0
    lemma_sub_add(m, p, m, q);
    lemma_sub(m.add_spec(m), p.add_spec(q));
    lemma_add_neg(m.add_spec(m));
    lemma_neg_unique(m.sub_spec(p), m.sub_spec(q));
}

/// `-(q - p) = p - q`.
pub proof fn lemma_neg_sub<T: Field>(q: T, p: T)
    requires
        is_field::<T>(),
    ensures
        q.sub_spec(p).neg_spec() == p.sub_spec(q),
{
    lemma_sub(q, p);
    lemma_sub(p, q);
    lemma_neg_add(q, p.neg_spec());
    lemma_neg_neg(p);
    lemma_add_comm(q.neg_spec(), p);
}

/// `(a + t)^2 = (a^2 + t^2) + (a t + a t)`.
pub proof fn lemma_square_sum<T: Field>(a: T, t: T)
    requires
        is_field::<T>(),
    ensures
        a.add_spec(t).mul_spec(a.add_spec(t)) == a.mul_spec(a).add_spec(t.mul_spec(t)).add_spec(
            a.mul_spec(t).add_spec(a.mul_spec(t)),
        ),
{
    let w = a.add_spec(t);
    lemma_distribute(w, a, t);
    lemma_distribute_right(a, t, a);
    lemma_distribute_right(a, t, t);
    lemma_mul_comm(t, a);
    // (aa + at) + (at + tt) = (aa + tt) + (at + at)
    lemma_add_comm(a.mul_spec(t), t.mul_spec(t));
    lemma_add_swap(a.mul_spec(a), a.mul_spec(t), t.mul_spec(t), a.mul_spec(t));
}

/// `(-a + t)^2 = (a^2 + t^2) + -(a t + a t)`.
pub proof fn lemma_square_difference<T: Field>(a: T, t: T)
    requires
        is_field::<T>(),
    ensures
        a.neg_spec().add_spec(t).mul_spec(a.neg_spec().add_spec(t)) == a.mul_spec(a).add_spec(
            t.mul_spec(t),
        ).add_spec(a.mul_spec(t).add_spec(a.mul_spec(t)).neg_spec()),
{
    let n = a.neg_spec();
    lemma_square_sum(n, t);
    // (-a)(-a) = -(a (-a)) = -(-(a a)) = a a
    lemma_neg_mul(a, n);
    lemma_mul_comm(a, n);
    lemma_neg_mul(a, a);
    lemma_neg_neg(a.mul_spec(a));
    // (-a) t + (-a) t = -(a t) + -(a t) = -(a t + a t)
    lemma_neg_mul(a, t);
    lemma_neg_add(a.mul_spec(t), a.mul_spec(t));
}

/// `(p + x) + (q + y) = (p + -x) + (q + -y)`, where `x + y = 0`.
pub proof fn lemma_equal_norms<T: Field>(p: T, x: T, q: T, y: T)
    requires
        is_field::<T>(),
        x.add_spec(y) == zero::<T>(),
    ensures
        p.add_spec(x).add_spec(q.add_spec(y)) == p.add_spec(x.neg_spec()).add_spec(
            q.add_spec(y.neg_spec()),
        ),
{
    lemma_add_swap(p, x, q, y);
    lemma_add_swap(p, x.neg_spec(), q, y.neg_spec());
    lemma_neg_add(x, y);
    lemma_neg_zero::<T>();
}

/// `(u + u) + (v + v) = 0`, where `u + v = 0`.
pub proof fn lemma_double_zero<T: Field>(u: T, v: T)
    requires
        is_field::<T>(),
        u.add_spec(v) == zero::<T>(),
    ensures
        u.add_spec(u).add_spec(v.add_spec(v)) == zero::<T>(),
{
    lemma_add_swap(u, u, v, v);
    lemma_add_zero(zero::<T>());
}

/// `a (k (b + b)) + b (k -(a + a)) = 0`.
pub proof fn lemma_orthogonal<T: Field>(a: T, b: T, k: T)
    requires
        is_field::<T>(),
    ensures
        a.mul_spec(k.mul_spec(b.add_spec(b))).add_spec(
            b.mul_spec(k.mul_spec(a.add_spec(a).neg_spec())),
        ) == zero::<T>(),
{
    let ab = a.mul_spec(b);
    let bb = b.add_spec(b);
    let aa = a.add_spec(a);
    let w = k.mul_spec(ab.add_spec(ab));
    // a (k (b + b)) = k (a (b + b)) = k (ab + ab)
    lemma_mul_assoc(a, k, bb);
    lemma_mul_comm(a, k);
    lemma_mul_assoc(k, a, bb);
    lemma_distribute(a, b, b);
    // b (k -(a + a)) = k (b -(a + a)) = k -(b (a + a)) = k -(ab + ab) = -(k (ab + ab))
    lemma_mul_assoc(b, k, aa.neg_spec());
    lemma_mul_comm(b, k);
    lemma_mul_assoc(k, b, aa.neg_spec());
    lemma_mul_comm(b, aa.neg_spec());
    lemma_neg_mul(aa, b);
    lemma_mul_comm(aa, b);
    lemma_distribute(b, a, a);
    lemma_mul_comm(b, a);
    lemma_mul_comm(k, ab.add_spec(ab).neg_spec());
    lemma_neg_mul(ab.add_spec(ab), k);
    lemma_mul_comm(ab.add_spec(ab), k);
    lemma_add_neg(w);
}

/// The constant four of `T` is two and two.
#[verifier::opaque]
pub open spec fn has_four<T: Scalar>() -> bool {
    constant::<T>(4) == constant::<T>(2).add_spec(constant::<T>(2))
}

/// `2 y = y + y`, and two is not zero.
pub proof fn lemma_double<T: Scalar>(y: T)
    requires
        is_field::<T>(),
        has_halves::<T>(),
    ensures
        constant::<T>(2).mul_spec(y) == y.add_spec(y),
        constant::<T>(2) != zero::<T>(),
{
    let one = constant::<T>(1);
    let two = constant::<T>(2);
    assert(y.mul_spec(one) == y && two == one.add_spec(one) && two != zero::<T>()) by {
        reveal(has_halves);
    }
    lemma_distribute(y, one, one);
    lemma_mul_comm(two, y);
}

/// `4 y = (y + y) + (y + y)`, and four is not zero.
pub proof fn lemma_quadruple<T: Scalar>(y: T)
    requires
        is_field::<T>(),
        has_halves::<T>(),
        has_four::<T>(),
    ensures
        constant::<T>(4).mul_spec(y) == y.add_spec(y).add_spec(y.add_spec(y)),
        constant::<T>(4) != zero::<T>(),
{
    let two = constant::<T>(2);
    let four = constant::<T>(4);
    assert(four == two.add_spec(two)) by {
        reveal(has_four);
    }
    lemma_distribute_right(two, two, y);
    lemma_double(y);
    lemma_double(two);
    if four == zero::<T>() {
        lemma_zero_product(two, two);
    }
}

/// `(p + p)(q + q) = (p q + p q) + (p q + p q)`.
pub proof fn lemma_double_product<T: Field>(p: T, q: T)
    requires
        is_field::<T>(),
    ensures
        p.add_spec(p).mul_spec(q.add_spec(q)) == p.mul_spec(q).add_spec(p.mul_spec(q)).add_spec(
            p.mul_spec(q).add_spec(p.mul_spec(q)),
        ),
{
    lemma_distribute(p.add_spec(p), q, q);
    lemma_distribute_right(p, p, q);
}

/// Four times a sum of three terms.
pub proof fn lemma_quadruple_sum<T: Field>(u: T, v: T, w: T)
    requires
        is_field::<T>(),
    ensures
        u.add_spec(u).add_spec(u.add_spec(u)).add_spec(
            v.add_spec(v).add_spec(v.add_spec(v)),
        ).add_spec(w.add_spec(w).add_spec(w.add_spec(w))) == ({
            let e = u.add_spec(v).add_spec(w);
            e.add_spec(e).add_spec(e.add_spec(e))
        }),
{
    let uv = u.add_spec(v);
    let e = uv.add_spec(w);
    // (u + u) + (v + v) = (u + v) + (u + v)
    lemma_add_swap(u, u, v, v);
    // ((u+u) + (u+u)) + ((v+v) + (v+v)) = ((u+u) + (v+v)) + ((u+u) + (v+v))
    lemma_add_swap(u.add_spec(u), u.add_spec(u), v.add_spec(v), v.add_spec(v));
    // (uv + uv) + (w + w) = (uv + w) + (uv + w)
    lemma_add_swap(uv, uv, w, w);
    lemma_add_swap(uv.add_spec(uv), uv.add_spec(uv), w.add_spec(w), w.add_spec(w));
}

/// `a u + a v + a w = a ((u + v) + w)`.
pub proof fn lemma_factor_three<T: Field>(a: T, u: T, v: T, w: T)
    requires
        is_field::<T>(),
    ensures
        a.mul_spec(u).add_spec(a.mul_spec(v)).add_spec(a.mul_spec(w)) == a.mul_spec(
            u.add_spec(v).add_spec(w),
        ),
{
    lemma_distribute(a, u, v);
    lemma_distribute(a, u.add_spec(v), w);
}

/// `a - b = 0` only if `a = b`.
pub proof fn lemma_sub_is_zero<T: Field>(a: T, b: T)
    requires
        is_field::<T>(),
        a.sub_spec(b) == zero::<T>(),
    ensures
        a == b,
{
    lemma_sub(a, b);
    lemma_equal_by_difference(a, b);
}

/// `((p - a) + (q - b)) + (r - c) = ((p + q) + r) - ((a + b) + c)`.
pub proof fn lemma_sub_add_three<T: Field>(p: T, a: T, q: T, b: T, r: T, c: T)
    requires
        is_field::<T>(),
    ensures
        p.sub_spec(a).add_spec(q.sub_spec(b)).add_spec(r.sub_spec(c)) == p.add_spec(q).add_spec(
            r,
        ).sub_spec(a.add_spec(b).add_spec(c)),
{
    lemma_sub_add(p, a, q, b);
    lemma_sub_add(p.add_spec(q), a.add_spec(b), r, c);
}

/// `(a - b) + (b - c) = a - c`.
pub proof fn lemma_sub_chain<T: Field>(a: T, b: T, c: T)
    requires
        is_field::<T>(),
    ensures
        a.sub_spec(b).add_spec(b.sub_spec(c)) == a.sub_spec(c),
{
    lemma_sub_add(a, b, b, c);
    lemma_sub(a.add_spec(b), b.add_spec(c));
    lemma_sub(a, c);
    lemma_neg_add(b, c);
    // (a + b) + (-b + -c) = (a + -b) + (b + -c) = a + -c
    lemma_add_swap(a, b, b.neg_spec(), c.neg_spec());
    lemma_add_assoc(a, b.neg_spec(), b.add_spec(c.neg_spec()));
    lemma_add_assoc(b.neg_spec(), b, c.neg_spec());
    lemma_add_comm(b.neg_spec(), b);
    lemma_add_neg(b);
    lemma_zero_add(c.neg_spec());
}

/// `p^2 - q^2 = (p - q)(p + q)`.
pub proof fn lemma_difference_of_squares<T: Field>(p: T, q: T)
    requires
        is_field::<T>(),
    ensures
        p.mul_spec(p).sub_spec(q.mul_spec(q)) == p.sub_spec(q).mul_spec(p.add_spec(q)),
{
    let w = p.sub_spec(q);
    lemma_distribute(w, p, q);
    lemma_distribute_sub(p, q, p);
    lemma_distribute_sub(p, q, q);
    lemma_mul_comm(q, p);
    // (pp - pq) + (pq - qq) = pp - qq
    lemma_sub_chain(p.mul_spec(p), p.mul_spec(q), q.mul_spec(q));
}

/// `(y a) h = y`, where `a h` is one.
pub proof fn lemma_times_unit<T: Scalar>(y: T, a: T, h: T)
    requires
        is_field::<T>(),
        has_halves::<T>(),
        a.mul_spec(h) == constant::<T>(1),
    ensures
        y.mul_spec(a).mul_spec(h) == y,
{
    assert(y.mul_spec(constant::<T>(1)) == y) by {
        reveal(has_halves);
    }
    lemma_mul_assoc(y, a, h);
}

/// `((f - d) + -(f + f)) + (f + d) = 0`.
pub proof fn lemma_zero_bracket<T: Field>(f: T, d: T)
    requires
        is_field::<T>(),
    ensures
        f.sub_spec(d).add_spec(f.add_spec(f).neg_spec()).add_spec(f.add_spec(d)) == zero::<T>(),
{
    let z = zero::<T>();
    let nf = f.neg_spec();
    let nd = d.neg_spec();
    lemma_sub(f, d);
    lemma_neg_add(f, f);
    // (f + -d) + (-f + -f) = (f + -f) + (-d + -f) = -d + -f
    lemma_add_swap(f, nd, nf, nf);
    lemma_add_neg(f);
    lemma_zero_add(nd.add_spec(nf));
    // (-d + -f) + (f + d) = (-d + f) + (-f + d) ... = 0
    lemma_add_comm(nd, nf);
    lemma_add_assoc(nf, nd, f.add_spec(d));
    lemma_add_comm(f, d);
    lemma_add_assoc(nd, d, f);
    lemma_add_comm(nd, d);
    lemma_add_neg(d);
    lemma_zero_add(f);
    lemma_add_comm(nf, f);
}

/// `w w + ((p + s) - g w) = p + c`, where `s = c + w e` and `(w + -g) + e = 0`.
pub proof fn lemma_collapse<T: Field>(w: T, p: T, s: T, g: T, c: T, e: T)
    requires
        is_field::<T>(),
        s == c.add_spec(w.mul_spec(e)),
        w.add_spec(g.neg_spec()).add_spec(e) == zero::<T>(),
    ensures
        w.mul_spec(w).add_spec(p.add_spec(s).sub_spec(g.mul_spec(w))) == p.add_spec(c),
{
    let z = zero::<T>();
    let ww = w.mul_spec(w);
    let we = w.mul_spec(e);
    let gw = g.mul_spec(w);
    let ngw = gw.neg_spec();
    // w (w + -g + e) = 0, that is (ww + -(gw)) + we = 0
    lemma_distribute(w, w.add_spec(g.neg_spec()), e);
    lemma_distribute(w, w, g.neg_spec());
    lemma_zero_mul(w);
    lemma_mul_comm(w, g.neg_spec());
    lemma_neg_mul(g, w);
    assert(ww.add_spec(ngw).add_spec(we) == z);
    // ww + ((p + (c + we)) + -(gw)) = (p + c) + ((ww + -(gw)) + we)
    lemma_sub(p.add_spec(s), gw);
    lemma_add_assoc(p, c, we);
    lemma_add_assoc(p.add_spec(c), we, ngw);
    lemma_add_comm(we, ngw);
    lemma_add_comm(ww, p.add_spec(c).add_spec(ngw.add_spec(we)));
    lemma_add_assoc(p.add_spec(c), ngw.add_spec(we), ww);
    lemma_add_comm(ngw.add_spec(we), ww);
    lemma_add_assoc(ww, ngw, we);
    lemma_add_zero(p.add_spec(c));
}

/// The order of `T` goes with the operators as the order of an ordered field
/// does: it is reflexive and transitive, `>=` is `<=` turned round and `>`
/// excludes `<=`, adding a value to both sides keeps `<=`, and a product of
/// values that are not below zero is not below zero.
#[verifier::opaque]
pub open spec fn is_ordered<T: Field>() -> bool {
    let z = zero::<T>();
    &&& forall|a: T| #[trigger] le(a, a)
    &&& forall|a: T, b: T| #[trigger] ge(a, b) <==> le(b, a)
    &&& forall|a: T, b: T| #[trigger] gt(a, b) ==> !le(a, b)
    &&& forall|a: T, b: T, c: T| #[trigger] le(a, b) && #[trigger] le(b, c) ==> le(a, c)
    &&& forall|a: T, b: T, c: T| le(a, b) ==> #[trigger] le(a.add_spec(c), b.add_spec(c))
    &&& forall|a: T, b: T| le(z, a) && le(z, b) ==> le(z, #[trigger] a.mul_spec(b))
}

/// `a <= a`.
pub proof fn lemma_le_refl<T: Field>(a: T)
    requires
        is_ordered::<T>(),
    ensures
        le(a, a),
{
    reveal(is_ordered);
}

/// `a >= b` means `b <= a`.
pub proof fn lemma_ge<T: Field>(a: T, b: T)
    requires
        is_ordered::<T>(),
    ensures
        ge(a, b) <==> le(b, a),
{
    reveal(is_ordered);
}

/// `a > b` excludes `a <= b`.
pub proof fn lemma_gt<T: Field>(a: T, b: T)
    requires
        is_ordered::<T>(),
        le(a, b),
    ensures
        !gt(a, b),
{
    reveal(is_ordered);
}

/// `a <= b` only if `a + c <= b + c`.
pub proof fn lemma_le_add<T: Field>(a: T, b: T, c: T)
    requires
        is_ordered::<T>(),
        le(a, b),
    ensures
        le(a.add_spec(c), b.add_spec(c)),
{
    reveal(is_ordered);
}

/// `0 <= a b`, where `0 <= a` and `0 <= b`.
pub proof fn lemma_le_mul<T: Field>(a: T, b: T)
    requires
        is_ordered::<T>(),
        le(zero::<T>(), a),
        le(zero::<T>(), b),
    ensures
        le(zero::<T>(), a.mul_spec(b)),
{
    reveal(is_ordered);
}

/// `0 <= j w <= w`, where `0 <= j <= 1` and `0 <= w`.
pub proof fn lemma_part<T: Scalar>(j: T, w: T)
    requires
        is_field::<T>(),
        has_halves::<T>(),
        is_ordered::<T>(),
        le(zero::<T>(), j),
        le(j, constant::<T>(1)),
        le(zero::<T>(), w),
    ensures
        le(zero::<T>(), j.mul_spec(w)),
        le(j.mul_spec(w), w),
        le(zero::<T>(), w.add_spec(j.mul_spec(w).neg_spec())),
        le(w.add_spec(j.mul_spec(w).neg_spec()), w),
{
    let z = zero::<T>();
    let one = constant::<T>(1);
    let jw = j.mul_spec(w);
    let nj = j.neg_spec();
    let rest = w.add_spec(jw.neg_spec());
    assert(w.mul_spec(one) == w) by {
        reveal(has_halves);
    }
    lemma_le_mul(j, w);
    // 0 <= 1 - j, so 0 <= (1 - j) w = w - j w
    lemma_le_add(j, one, nj);
    lemma_add_neg(j);
    lemma_le_mul(one.add_spec(nj), w);
    lemma_distribute_right(one, nj, w);
    lemma_mul_comm(one, w);
    lemma_neg_mul(j, w);
    assert(le(z, rest));
    // j w <= w: add j w to both sides of 0 <= w - j w
    lemma_le_add(z, rest, jw);
    lemma_zero_add(jw);
    lemma_add_assoc(w, jw.neg_spec(), jw);
    lemma_add_comm(jw.neg_spec(), jw);
    lemma_add_neg(jw);
    lemma_add_zero(w);
    assert(le(jw, w));
    // w - j w <= w: add w - j w to both sides of 0 <= j w
    lemma_le_add(z, jw, rest);
    lemma_zero_add(rest);
    lemma_add_comm(jw, rest);
    assert(le(rest, w));
}

/// `a + j (a - a) = a`.
pub proof fn lemma_axis_fixed<T: Field>(a: T, j: T)
    requires
        is_field::<T>(),
    ensures
        a.add_spec(j.mul_spec(a.sub_spec(a))) == a,
{
    lemma_sub(a, a);
    lemma_add_neg(a);
    lemma_zero_mul(j);
    lemma_add_zero(a);
}

/// `0 + j (w - 0) = j w`.
pub proof fn lemma_axis_up<T: Field>(j: T, w: T)
    requires
        is_field::<T>(),
    ensures
        zero::<T>().add_spec(j.mul_spec(w.sub_spec(zero::<T>()))) == j.mul_spec(w),
{
    lemma_sub(w, zero::<T>());
    lemma_neg_zero::<T>();
    lemma_add_zero(w);
    lemma_zero_add(j.mul_spec(w));
}

/// `w + j (0 - w) = w + -(j w)`.
pub proof fn lemma_axis_down<T: Field>(j: T, w: T)
    requires
        is_field::<T>(),
    ensures
        w.add_spec(j.mul_spec(zero::<T>().sub_spec(w))) == w.add_spec(j.mul_spec(w).neg_spec()),
{
    lemma_sub(zero::<T>(), w);
    lemma_zero_add(w.neg_spec());
    lemma_mul_comm(j, w.neg_spec());
    lemma_neg_mul(w, j);
    lemma_mul_comm(w, j);
}

} // verus!
