//! What solving a system of linear equations yields over a field: a vector
//! that meets every equation of the system.

use vstd::prelude::*;
use vstd::std_specs::ops::{AddSpec, DivSpec, MulSpec, NegSpec, SubSpec};
use crate::field::{
    is_field,
    lemma_add_cancel,
    lemma_add_neg,
    lemma_balance,
    lemma_combination_last,
    lemma_combination_step,
    lemma_combination_zero,
    lemma_cross_cancel,
    lemma_distribute_sub,
    lemma_move_term,
    lemma_mul_comm,
    lemma_neg_zero,
    lemma_pivot_term,
    lemma_same,
    lemma_sub,
    lemma_sub_is_zero,
    lemma_zero_add,
    lemma_zero_combination,
    lemma_zero_mul,
    lemma_zero_product,
};
use crate::linear::{
    back_substituted,
    eliminated,
    eliminated_cell,
    has_pivot,
    magnitude,
    pivot_choice,
    reduced_rhs,
    rows_swapped,
    solution_of,
    triangulated,
    with_pivot,
};
use crate::scalar::{same, zero, Field};

verus! {

/// The sum of the products of the first `k` coefficients of a row with the
/// first `k` unknowns, added up from zero in the order of the index.
pub open spec fn row_sum<T: Field>(row: Seq<T>, x: Seq<T>, k: int) -> T
    decreases k,
{
    if k <= 0 {
        zero::<T>()
    } else {
        row_sum(row, x, k - 1).add_spec(row[k - 1].mul_spec(x[k - 1]))
    }
}

/// The left side of the equation `a1 x1 + .. + an xn + b = 0` that the row
/// `[a1 .. an b]` stands for.
pub open spec fn residual<T: Field>(row: Seq<T>, x: Seq<T>) -> T {
    row_sum(row, x, x.len() as int).add_spec(row[x.len() as int])
}

/// `x` meets every equation of the system.
pub open spec fn solves<T: Field>(g: Seq<Seq<T>>, x: Seq<T>) -> bool {
    forall|i: int| 0 <= i < g.len() ==> #[trigger] residual(g[i], x) == zero::<T>()
}

/// The grid has `n` rows of `n + 1` cells.
pub open spec fn is_system<T>(g: Seq<Seq<T>>, n: int) -> bool {
    &&& g.len() == n
    &&& forall|i: int| 0 <= i < n ==> (#[trigger] g[i]).len() == n + 1
}

/// Below the diagonal, the first `col` columns hold zeros.
pub open spec fn zero_below<T: Field>(g: Seq<Seq<T>>, col: int) -> bool {
    forall|r: int, c: int| 0 <= c < col && c < r < g.len() ==> (#[trigger] g[r][c]) == zero::<T>()
}

/// On the diagonal, the first `col` columns hold no zero.
pub open spec fn pivots_set<T: Field>(g: Seq<Seq<T>>, col: int) -> bool {
    forall|k: int| 0 <= k < col ==> (#[trigger] g[k][k]) != zero::<T>()
}

/// The sum of a row that is a combination of two rows is the combination of
/// their sums.
proof fn lemma_combination_sum<T: Field>(
    u: Seq<T>,
    v: Seq<T>,
    w: Seq<T>,
    a: T,
    b: T,
    x: Seq<T>,
    k: int,
)
    requires
        is_field::<T>(),
        0 <= k <= x.len(),
        k <= u.len(),
        k <= v.len(),
        k <= w.len(),
        forall|c: int| 0 <= c < k ==> #[trigger] w[c] == u[c].mul_spec(a).sub_spec(v[c].mul_spec(b)),
    ensures
        row_sum(w, x, k) == row_sum(u, x, k).mul_spec(a).sub_spec(row_sum(v, x, k).mul_spec(b)),
    decreases k,
{
    if k == 0 {
        lemma_zero_combination(a, b);
    } else {
        lemma_combination_sum(u, v, w, a, b, x, k - 1);
        lemma_combination_step(
            row_sum(u, x, k - 1),
            u[k - 1],
            row_sum(v, x, k - 1),
            v[k - 1],
            x[k - 1],
            a,
            b,
        );
        assert(w[k - 1] == u[k - 1].mul_spec(a).sub_spec(v[k - 1].mul_spec(b)));
    }
}

/// The left side of an equation that is a combination of two equations is the
/// combination of their left sides.
proof fn lemma_combination<T: Field>(u: Seq<T>, v: Seq<T>, w: Seq<T>, a: T, b: T, x: Seq<T>)
    requires
        is_field::<T>(),
        x.len() < u.len(),
        x.len() < v.len(),
        x.len() < w.len(),
        forall|c: int|
            0 <= c <= x.len() ==> #[trigger] w[c] == u[c].mul_spec(a).sub_spec(v[c].mul_spec(b)),
    ensures
        residual(w, x) == residual(u, x).mul_spec(a).sub_spec(residual(v, x).mul_spec(b)),
{
    let n = x.len() as int;
    lemma_combination_sum(u, v, w, a, b, x, n);
    lemma_combination_last(row_sum(u, x, n), u[n], row_sum(v, x, n), v[n], a, b);
    assert(w[n] == u[n].mul_spec(a).sub_spec(v[n].mul_spec(b)));
}

/// A row that begins with `k` zeros has the sum zero over its first `k` cells.
proof fn lemma_zero_prefix<T: Field>(row: Seq<T>, x: Seq<T>, k: int)
    requires
        is_field::<T>(),
        0 <= k <= x.len(),
        k <= row.len(),
        forall|j: int| 0 <= j < k ==> #[trigger] row[j] == zero::<T>(),
    ensures
        row_sum(row, x, k) == zero::<T>(),
    decreases k,
{
    if k > 0 {
        lemma_zero_prefix(row, x, k - 1);
        assert(row[k - 1] == zero::<T>());
        lemma_zero_mul(x[k - 1]);
        lemma_zero_add(zero::<T>());
    }
}

/// The sum of a row does not hang on an unknown whose coefficient is zero, nor
/// on one that it does not reach.
proof fn lemma_sum_ignores<T: Field>(row: Seq<T>, x: Seq<T>, i: int, value: T, k: int)
    requires
        is_field::<T>(),
        0 <= k <= x.len(),
        k <= row.len(),
        0 <= i < x.len(),
        i >= k || row[i] == zero::<T>(),
    ensures
        row_sum(row, x.update(i, value), k) == row_sum(row, x, k),
    decreases k,
{
    if k > 0 {
        lemma_sum_ignores(row, x, i, value, k - 1);
        if i == k - 1 {
            lemma_zero_mul(x[i]);
            lemma_zero_mul(value);
        }
    }
}

/// A value whose magnitude is not zero is not zero.
proof fn lemma_magnitude<T: Field>(v: T)
    requires
        is_field::<T>(),
        !same(magnitude(v), zero::<T>()),
    ensures
        v != zero::<T>(),
{
    lemma_same(magnitude(v), zero::<T>());
    lemma_neg_zero::<T>();
}

/// The pivot is chosen among the rows that are searched.
proof fn lemma_pivot_choice_range<T: Field>(g: Seq<Seq<T>>, start: int, col: int, last: int)
    requires
        start <= last,
    ensures
        start <= pivot_choice(g, start, col, last) <= last,
    decreases last - start,
{
    if last > start {
        lemma_pivot_choice_range(g, start, col, last - 1);
    }
}

/// A vector that meets the equations with two rows exchanged meets the
/// equations.
proof fn lemma_swapped_solves<T: Field>(g: Seq<Seq<T>>, i: int, j: int, x: Seq<T>)
    requires
        0 <= i < g.len(),
        0 <= j < g.len(),
        solves(rows_swapped(g, i, j), x),
    ensures
        solves(g, x),
{
    let s = rows_swapped(g, i, j);
    assert forall|r: int| 0 <= r < g.len() implies #[trigger] residual(g[r], x) == zero::<T>() by {
        if r == i {
            assert(s[j] == g[i]);
            assert(residual(s[j], x) == zero::<T>());
        } else if r == j {
            assert(s[i] == g[j]);
            assert(residual(s[i], x) == zero::<T>());
        } else {
            assert(s[r] == g[r]);
            assert(residual(s[r], x) == zero::<T>());
        }
    }
}

/// A vector that meets the equations after a column was cleared below its
/// pivot meets the equations before.
proof fn lemma_eliminated_solves<T: Field>(g: Seq<Seq<T>>, n: int, p: int, x: Seq<T>)
    requires
        is_field::<T>(),
        is_system(g, n),
        x.len() == n,
        0 <= p < n,
        zero_below(g, p),
        forall|c: int| 0 <= c < p ==> (#[trigger] g[p][c]) == zero::<T>(),
        g[p][p] != zero::<T>(),
        solves(eliminated(g, p, p), x),
    ensures
        solves(g, x),
{
    let e = eliminated(g, p, p);
    let z = zero::<T>();
    assert forall|r: int| 0 <= r < g.len() implies #[trigger] residual(g[r], x) == z by {
        assert(residual(e[r], x) == z);
        lemma_same(g[r][p], z);
        if r > p && g[r][p] != z {
            let a = g[r][p];
            let b = g[p][p];
            assert(e[p] =~= g[p]);
            assert(residual(e[p], x) == z);
            assert forall|c: int| 0 <= c <= n implies #[trigger] e[r][c] == g[p][c].mul_spec(
                a,
            ).sub_spec(g[r][c].mul_spec(b)) by {
                assert(e[r][c] == eliminated_cell(g, p, p, r, c));
                if c == p {
                    lemma_cross_cancel(b, a);
                } else if c < p {
                    assert(g[r][c] == z);
                    assert(g[p][c] == z);
                    lemma_zero_combination(a, b);
                }
            }
            lemma_combination(g[p], g[r], e[r], a, b, x);
            lemma_combination_zero(a, residual(g[r], x), b);
        } else {
            assert(e[r] =~= g[r]);
        }
    }
}

/// A vector that meets the equations meets them with two rows exchanged.
proof fn lemma_swap_keeps_solution<T: Field>(g: Seq<Seq<T>>, i: int, j: int, x: Seq<T>)
    requires
        0 <= i < g.len(),
        0 <= j < g.len(),
        solves(g, x),
    ensures
        solves(rows_swapped(g, i, j), x),
{
    let s = rows_swapped(g, i, j);
    assert forall|r: int| 0 <= r < s.len() implies #[trigger] residual(s[r], x) == zero::<T>() by {
        if r == j {
            assert(s[j] == g[i]);
            assert(residual(g[i], x) == zero::<T>());
        } else if r == i {
            assert(s[i] == g[j]);
            assert(residual(g[j], x) == zero::<T>());
        } else {
            assert(s[r] == g[r]);
            assert(residual(g[r], x) == zero::<T>());
        }
    }
}

/// A vector that meets the equations meets them after a column was cleared
/// below its pivot.
proof fn lemma_elimination_keeps_solution<T: Field>(g: Seq<Seq<T>>, n: int, p: int, x: Seq<T>)
    requires
        is_field::<T>(),
        is_system(g, n),
        x.len() == n,
        0 <= p < n,
        zero_below(g, p),
        forall|c: int| 0 <= c < p ==> (#[trigger] g[p][c]) == zero::<T>(),
        solves(g, x),
    ensures
        solves(eliminated(g, p, p), x),
{
    let e = eliminated(g, p, p);
    let z = zero::<T>();
    assert forall|r: int| 0 <= r < e.len() implies #[trigger] residual(e[r], x) == z by {
        assert(residual(g[r], x) == z);
        assert(residual(g[p], x) == z);
        lemma_same(g[r][p], z);
        if r > p && g[r][p] != z {
            let a = g[r][p];
            let b = g[p][p];
            assert forall|c: int| 0 <= c <= n implies #[trigger] e[r][c] == g[p][c].mul_spec(
                a,
            ).sub_spec(g[r][c].mul_spec(b)) by {
                assert(e[r][c] == eliminated_cell(g, p, p, r, c));
                if c == p {
                    lemma_cross_cancel(b, a);
                } else if c < p {
                    assert(g[r][c] == z);
                    assert(g[p][c] == z);
                    lemma_zero_combination(a, b);
                }
            }
            lemma_combination(g[p], g[r], e[r], a, b, x);
            lemma_zero_combination(a, b);
        } else {
            assert(e[r] =~= g[r]);
        }
    }
}

/// The number of pivots found in the first `col` columns is at most `col`.
proof fn lemma_pivot_count<T: Field>(g: Seq<Seq<T>>, col: int)
    requires
        0 <= col,
    ensures
        0 <= triangulated(g, col).1 <= col,
    decreases col,
{
    if col > 0 {
        lemma_pivot_count(g, col - 1);
    }
}

/// Where every one of the first `col` columns of a system had a pivot, the
/// triangular form has zeros below the diagonal and none on it in these
/// columns, and a vector meets its equations if and only if it meets those of
/// the system.
proof fn lemma_triangulated<T: Field>(g: Seq<Seq<T>>, n: int, col: int, x: Seq<T>)
    requires
        is_field::<T>(),
        is_system(g, n),
        x.len() == n,
        0 <= col <= n,
        triangulated(g, col).1 == col,
    ensures
        is_system(triangulated(g, col).0, n),
        zero_below(triangulated(g, col).0, col),
        pivots_set(triangulated(g, col).0, col),
        solves(triangulated(g, col).0, x) ==> solves(g, x),
        solves(g, x) ==> solves(triangulated(g, col).0, x),
    decreases col,
{
    if col > 0 {
        let z = zero::<T>();
        let p = col - 1;
        let (h, start) = triangulated(g, p);
        lemma_pivot_count(g, p);
        assert(start == p && has_pivot(h, p, p));
        lemma_triangulated(g, n, p, x);
        let choice = pivot_choice(h, p, p, h.len() - 1);
        lemma_pivot_choice_range(h, p, p, h.len() - 1);
        lemma_magnitude(h[choice][p]);
        let m = rows_swapped(h, choice, p);
        assert(m == with_pivot(h, p, p));
        let e = eliminated(m, p, p);
        assert(e == triangulated(g, col).0);
        assert(is_system(m, n)) by {
            assert forall|i: int| 0 <= i < n implies (#[trigger] m[i]).len() == n + 1 by {
                assert(h[i].len() == n + 1);
                assert(h[choice].len() == n + 1);
                assert(h[p].len() == n + 1);
            }
        }
        assert forall|r: int, c: int| 0 <= c < p && c < r < n implies (#[trigger] m[r][c])
            == z by {
            assert(h[r][c] == z);
            assert(h[choice][c] == z);
            assert(h[p][c] == z);
        }
        assert(m[p][p] == h[choice][p]);
        assert(is_system(e, n)) by {
            assert forall|i: int| 0 <= i < n implies (#[trigger] e[i]).len() == n + 1 by {
                assert(m[i].len() == n + 1);
            }
        }
        assert forall|r: int, c: int| 0 <= c < col && c < r < n implies (#[trigger] e[r][c])
            == z by {
            assert(e[r][c] == eliminated_cell(m, p, p, r, c));
            lemma_same(m[r][p], z);
            if c < p {
                assert(m[r][c] == z);
            }
        }
        assert forall|k: int| 0 <= k < col implies (#[trigger] e[k][k]) != z by {
            assert(e[k][k] == eliminated_cell(m, p, p, k, k));
            if k < p {
                assert(m[k] == h[k]);
                assert(h[k][k] != z);
            }
        }
        if solves(e, x) {
            assert forall|c: int| 0 <= c < p implies (#[trigger] m[p][c]) == z by {
                assert(h[choice][c] == z);
            }
            lemma_eliminated_solves(m, n, p, x);
            lemma_swapped_solves(h, choice, p, x);
        }
        if solves(g, x) {
            assert forall|c: int| 0 <= c < p implies (#[trigger] m[p][c]) == z by {
                assert(h[choice][c] == z);
            }
            lemma_swap_keeps_solution(h, choice, p, x);
            lemma_elimination_keeps_solution(m, n, p, x);
        }
    }
}

/// Back substitution yields a vector of `n` unknowns.
proof fn lemma_back_len<T: Field>(h: Seq<Seq<T>>, n: int, row: int)
    requires
        0 <= row <= n,
    ensures
        back_substituted(h, n, row).len() == n,
    decreases n - row,
{
    if row < n {
        lemma_back_len(h, n, row + 1);
    }
}

/// While the terms of the unknowns after `row` move from the left side of the
/// equation of that row to the right, the two sides add up to the same.
proof fn lemma_back_balance<T: Field>(h: Seq<Seq<T>>, n: int, row: int, x: Seq<T>, value: T, m: int)
    requires
        is_field::<T>(),
        is_system(h, n),
        zero_below(h, n),
        0 <= row < m <= n,
        x.len() == n,
        h[row][row] != zero::<T>(),
        value == reduced_rhs(h, x, n, row, n).div_spec(h[row][row]),
    ensures
        row_sum(h[row], x.update(row, value), m).add_spec(reduced_rhs(h, x, n, row, m))
            == reduced_rhs(h, x, n, row, n).add_spec(h[row][n].neg_spec()),
    decreases m,
{
    let y = x.update(row, value);
    if m == row + 1 {
        assert forall|j: int| 0 <= j < row implies #[trigger] h[row][j] == zero::<T>() by {}
        lemma_zero_prefix(h[row], y, row);
        lemma_pivot_term(h[row][row], reduced_rhs(h, x, n, row, n));
    } else {
        lemma_back_balance(h, n, row, x, value, m - 1);
        assert(y[m - 1] == x[m - 1]);
        lemma_move_term(
            row_sum(h[row], y, m - 1),
            h[row][m - 1].mul_spec(x[m - 1]),
            reduced_rhs(h, x, n, row, m - 1),
        );
    }
}

/// Back substitution in a triangular system meets the equations of the rows
/// that it has reached.
proof fn lemma_back_solves<T: Field>(h: Seq<Seq<T>>, n: int, row: int, k: int)
    requires
        is_field::<T>(),
        is_system(h, n),
        zero_below(h, n),
        pivots_set(h, n),
        0 <= row <= k < n,
    ensures
        residual(h[k], back_substituted(h, n, row)) == zero::<T>(),
    decreases n - row,
{
    if row < n {
        lemma_back_len(h, n, row + 1);
        let x = back_substituted(h, n, row + 1);
        let value = reduced_rhs(h, x, n, row, n).div_spec(h[row][row]);
        let y = x.update(row, value);
        assert(y == back_substituted(h, n, row));
        if k == row {
            assert(h[row][row] != zero::<T>());
            lemma_back_balance(h, n, row, x, value, n);
            lemma_balance(row_sum(h[row], y, n), reduced_rhs(h, x, n, row, n), h[row][n]);
        } else {
            lemma_back_solves(h, n, row + 1, k);
            assert(h[k][row] == zero::<T>());
            lemma_sum_ignores(h[k], x, row, value, n);
        }
    }
}

/// `a u = a v` with `a` other than zero only if `u = v`.
proof fn lemma_mul_cancel<T: Field>(a: T, u: T, v: T)
    requires
        is_field::<T>(),
        a != zero::<T>(),
        a.mul_spec(u) == a.mul_spec(v),
    ensures
        u == v,
{
    let w = u.mul_spec(a);
    lemma_mul_comm(a, u);
    lemma_mul_comm(a, v);
    lemma_distribute_sub(u, v, a);
    lemma_sub(w, w);
    lemma_add_neg(w);
    lemma_zero_product(u.sub_spec(v), a);
    lemma_sub_is_zero(u, v);
}

/// Two vectors that agree from `i + 1` on and give a row the same sum over
/// its first `m` cells give it the same sum over its first `i + 1` cells.
proof fn lemma_sums_agree<T: Field>(row: Seq<T>, x: Seq<T>, y: Seq<T>, i: int, m: int)
    requires
        is_field::<T>(),
        0 <= i < m <= x.len(),
        x.len() == y.len(),
        m <= row.len(),
        forall|k: int| i < k < x.len() ==> #[trigger] x[k] == y[k],
        row_sum(row, x, m) == row_sum(row, y, m),
    ensures
        row_sum(row, x, i + 1) == row_sum(row, y, i + 1),
    decreases m,
{
    if m > i + 1 {
        assert(x[m - 1] == y[m - 1]);
        lemma_add_cancel(
            row_sum(row, x, m - 1),
            row_sum(row, y, m - 1),
            row[m - 1].mul_spec(x[m - 1]),
        );
        lemma_sums_agree(row, x, y, i, m - 1);
    }
}

/// Two vectors that meet the equations of a triangular system without a zero
/// on its diagonal agree from `i` on.
proof fn lemma_triangular_unique<T: Field>(h: Seq<Seq<T>>, n: int, x: Seq<T>, y: Seq<T>, i: int)
    requires
        is_field::<T>(),
        is_system(h, n),
        zero_below(h, n),
        pivots_set(h, n),
        x.len() == n,
        y.len() == n,
        solves(h, x),
        solves(h, y),
        0 <= i <= n,
    ensures
        forall|k: int| i <= k < n ==> #[trigger] x[k] == y[k],
    decreases n - i,
{
    if i < n {
        lemma_triangular_unique(h, n, x, y, i + 1);
        let row = h[i];
        let z = zero::<T>();
        assert(residual(row, x) == z);
        assert(residual(row, y) == z);
        lemma_add_cancel(row_sum(row, x, n), row_sum(row, y, n), row[n]);
        lemma_sums_agree(row, x, y, i, n);
        assert forall|j: int| 0 <= j < i implies #[trigger] row[j] == z by {
            assert(h[i][j] == z);
        }
        lemma_zero_prefix(row, x, i);
        lemma_zero_prefix(row, y, i);
        lemma_zero_add(row[i].mul_spec(x[i]));
        lemma_zero_add(row[i].mul_spec(y[i]));
        assert(h[i][i] != z);
        lemma_mul_cancel(row[i], x[i], y[i]);
    }
}

/// The rows of `g` are rows of `of`.
pub open spec fn rows_among<T>(g: Seq<Seq<T>>, of: Seq<Seq<T>>) -> bool {
    forall|i: int| 0 <= i < g.len() ==> exists|j: int| 0 <= j < of.len() && #[trigger] g[i] == of[j]
}

/// Over a field, a system of as many equations as unknowns that is solved has
/// no other solution: every vector that meets its equations is the one that
/// solving it yields.
pub proof fn lemma_solution_unique<T: Field>(g: Seq<Seq<T>>, n: int, y: Seq<T>)
    requires
        is_field::<T>(),
        is_system(g, n),
        solution_of(g, n, n + 1) is Ok,
        y.len() == n,
        solves(g, y),
    ensures
        solution_of(g, n, n + 1)->Ok_0 == y,
{
    let (h, order) = triangulated(g, n);
    let x = back_substituted(h, n, 0);
    assert(order == n);
    assert(x == solution_of(g, n, n + 1)->Ok_0);
    lemma_back_len(h, n, 0);
    lemma_triangulated(g, n, n, x);
    lemma_triangulated(g, n, n, y);
    assert forall|k: int| 0 <= k < h.len() implies #[trigger] residual(h[k], x) == zero::<T>() by {
        lemma_back_solves(h, n, 0, k);
    }
    lemma_triangular_unique(h, n, x, y, 0);
    assert(x =~= y);
}

/// Over a field, two systems of as many equations as unknowns of which the
/// second holds rows of the first, in any order, and which are both solved
/// have the same solution.
pub proof fn lemma_rows_in_any_order<T: Field>(g: Seq<Seq<T>>, permuted: Seq<Seq<T>>, n: int)
    requires
        is_field::<T>(),
        is_system(g, n),
        is_system(permuted, n),
        rows_among(permuted, g),
        solution_of(g, n, n + 1) is Ok,
        solution_of(permuted, n, n + 1) is Ok,
    ensures
        solution_of(permuted, n, n + 1)->Ok_0 == solution_of(g, n, n + 1)->Ok_0,
{
    let x = solution_of(g, n, n + 1)->Ok_0;
    lemma_solution_solves(g, n);
    assert forall|i: int| 0 <= i < permuted.len() implies #[trigger] residual(permuted[i], x)
        == zero::<T>() by {
        let j = choose|j: int| 0 <= j < g.len() && permuted[i] == g[j];
        assert(residual(g[j], x) == zero::<T>());
    }
    lemma_solution_unique(permuted, n, x);
}

/// Over a field, the solution of a system of as many equations as unknowns
/// meets every equation of the system.
pub proof fn lemma_solution_solves<T: Field>(g: Seq<Seq<T>>, n: int)
    requires
        is_field::<T>(),
        is_system(g, n),
        solution_of(g, n, n + 1) is Ok,
    ensures
        solution_of(g, n, n + 1)->Ok_0.len() == n,
        solves(g, solution_of(g, n, n + 1)->Ok_0),
{
    let (h, order) = triangulated(g, n);
    let x = back_substituted(h, n, 0);
    assert(order == n);
    assert(x == solution_of(g, n, n + 1)->Ok_0);
    lemma_back_len(h, n, 0);
    lemma_triangulated(g, n, n, x);
    assert forall|k: int| 0 <= k < h.len() implies #[trigger] residual(h[k], x) == zero::<T>() by {
        lemma_back_solves(h, n, 0, k);
    }
}

} // verus!
