//! Plane geometry: intersections of lines, rays and segments, the circle
//! through three points, and the intersection of two parabolas that share a
//! horizontal directrix.

use vstd::prelude::*;
use vstd::std_specs::ops::{AddSpec, DivSpec, MulSpec, NegSpec, SubSpec};
use crate::elimination::{lemma_solution_solves, residual, row_sum};
use crate::field::{
    has_four,
    has_halves,
    is_field,
    is_ordered,
    lemma_axis_down,
    lemma_axis_fixed,
    lemma_axis_up,
    lemma_ge,
    lemma_gt,
    lemma_le_refl,
    lemma_part,
    lemma_add_assoc,
    lemma_add_comm,
    lemma_collapse,
    lemma_difference_of_squares,
    lemma_distribute,
    lemma_distribute_right,
    lemma_distribute_sub,
    lemma_div_mul,
    lemma_double,
    lemma_mul_assoc,
    lemma_mul_comm,
    lemma_mul_swap,
    lemma_neg_mul,
    lemma_same,
    lemma_sub_add,
    lemma_sub_chain,
    lemma_sub_is_zero,
    lemma_times_unit,
    lemma_zero_bracket,
    lemma_zero_product,
    lemma_double_zero,
    lemma_equal_norms,
    lemma_half_sum,
    lemma_halfway,
    lemma_line_equation,
    lemma_neg_neg,
    lemma_neg_sub,
    lemma_orthogonal,
    lemma_square_difference,
    lemma_square_sum,
    lemma_sub,
    lemma_sub_move,
    lemma_sub_sub,
};
use crate::linear::{is_row_arrangement, solution_of, solve_from_matrix, worked_grid};
use crate::matrix::{grid, FixedMatrix, Matrix, Matrix2x3};
use crate::quadratic::{
    discriminant,
    lemma_roots_are_roots,
    lemma_value_of_difference,
    solution_with_root,
    solve,
    value_at,
    Solution,
};
use crate::scalar::{
    constant,
    exact_scalar,
    ge,
    gt,
    le,
    lt,
    make_constant,
    make_zero,
    same,
    total_fn,
    total_ops,
    zero,
    Scalar,
};
use crate::vector::{point, Vec2, Vector2};

verus! {

/// An axis-aligned rectangle, held as its four corners: top left, top right,
/// bottom right, bottom left, where top is the smaller `y`.
pub struct BoundingBox<T> {
    points: [Vec2<T>; 4],
}

/// The smaller of two values, as `BoundingBox::new` orders them.
pub open spec fn lower<T: Scalar>(a: T, b: T) -> T {
    if gt(a, b) {
        b
    } else {
        a
    }
}

/// The greater of two values, as `BoundingBox::new` orders them.
pub open spec fn upper<T: Scalar>(a: T, b: T) -> T {
    if gt(a, b) {
        a
    } else {
        b
    }
}

impl<T: Scalar> BoundingBox<T> {
    /// The corner with the given index, counted clockwise from the top left.
    pub closed spec fn corner(&self, i: int) -> Vec2<T> {
        self.points[i]
    }

    /// The rectangle between two `x` and two `y` coordinates, given in any order.
    pub fn new(x1: T, x2: T, y1: T, y2: T) -> (bounds: BoundingBox<T>)
        ensures
            exact_scalar::<T>() ==> {
                &&& bounds.corner(0) == point(lower(x1, x2), lower(y1, y2))
                &&& bounds.corner(1) == point(upper(x1, x2), lower(y1, y2))
                &&& bounds.corner(2) == point(upper(x1, x2), upper(y1, y2))
                &&& bounds.corner(3) == point(lower(x1, x2), upper(y1, y2))
            },
    {
        let (left, right) = if x1 > x2 {
            (x2, x1)
        } else {
            (x1, x2)
        };
        let (top, bottom) = if y1 > y2 {
            (y2, y1)
        } else {
            (y1, y2)
        };
        BoundingBox {
            points: [
                Vec2::from_values(left, top),
                Vec2::from_values(right, top),
                Vec2::from_values(right, bottom),
                Vec2::from_values(left, bottom),
            ],
        }
    }

    /// A corner of the rectangle.
    pub fn get_corner(&self, i: usize) -> (p: Vec2<T>)
        requires
            i < 4,
        ensures
            p == self.corner(i as int),
    {
        self.points[i]
    }
}

/// The system whose solution `(k, j)` gives the point that the lines
/// `p1 + k d1` and `p2 + j d2` share.
pub open spec fn parameter_grid<T: Scalar>(
    p1: Vec2<T>,
    d1: Vec2<T>,
    p2: Vec2<T>,
    d2: Vec2<T>,
) -> Seq<Seq<T>> {
    seq![
        seq![d1.x(), d2.x().neg_spec(), p1.x().sub_spec(p2.x())],
        seq![d1.y(), d2.y().neg_spec(), p1.y().sub_spec(p2.y())],
    ]
}

/// The parameters `(k, j)` of the common point of two lines, or `None` where the
/// lines are parallel or the same.
pub open spec fn line_parameters<T: Scalar>(
    p1: Vec2<T>,
    d1: Vec2<T>,
    p2: Vec2<T>,
    d2: Vec2<T>,
) -> Option<(T, T)> {
    match solution_of(parameter_grid(p1, d1, p2, d2), 2, 3) {
        Ok(s) => Some((s[0], s[1])),
        Err(_) => None,
    }
}

/// The point `p + k d`.
pub open spec fn point_on_line<T: Scalar>(p: Vec2<T>, d: Vec2<T>, k: T) -> Vec2<T> {
    point(p.x().add_spec(k.mul_spec(d.x())), p.y().add_spec(k.mul_spec(d.y())))
}

/// The common point of two lines.
pub open spec fn line_hit<T: Scalar>(p1: Vec2<T>, d1: Vec2<T>, p2: Vec2<T>, d2: Vec2<T>) -> Option<
    Vec2<T>,
> {
    match line_parameters(p1, d1, p2, d2) {
        Some((k, j)) => Some(point_on_line(p1, d1, k)),
        None => None,
    }
}

/// The common point of two rays: that of their lines, where both parameters are
/// at least zero.
pub open spec fn ray_hit<T: Scalar>(p1: Vec2<T>, d1: Vec2<T>, p2: Vec2<T>, d2: Vec2<T>) -> Option<
    Vec2<T>,
> {
    match line_parameters(p1, d1, p2, d2) {
        Some((k, j)) => if ge(k, zero::<T>()) && ge(j, zero::<T>()) {
            Some(point_on_line(p1, d1, k))
        } else {
            None
        },
        None => None,
    }
}

/// The direction from `start` to `end`.
pub open spec fn direction<T: Scalar>(start: Vec2<T>, end: Vec2<T>) -> Vec2<T> {
    point(end.x().sub_spec(start.x()), end.y().sub_spec(start.y()))
}

/// The point in which a ray meets a segment, both ends of the segment included.
pub open spec fn segment_hit<T: Scalar>(
    p: Vec2<T>,
    d: Vec2<T>,
    start: Vec2<T>,
    end: Vec2<T>,
) -> Option<Vec2<T>> {
    match line_parameters(p, d, start, direction(start, end)) {
        Some((k, j)) => if ge(k, zero::<T>()) && ge(j, zero::<T>()) && le(j, constant::<T>(1)) {
            Some(point_on_line(p, d, k))
        } else {
            None
        },
        None => None,
    }
}

/// The point in which a ray meets a rectangle: the hit on the first side that
/// has one, the sides taken in the order top, right, bottom, left.
pub open spec fn box_hit<T: Scalar>(p: Vec2<T>, d: Vec2<T>, bounds: BoundingBox<T>) -> Option<
    Vec2<T>,
> {
    if segment_hit(p, d, bounds.corner(0), bounds.corner(1)) is Some {
        segment_hit(p, d, bounds.corner(0), bounds.corner(1))
    } else if segment_hit(p, d, bounds.corner(1), bounds.corner(2)) is Some {
        segment_hit(p, d, bounds.corner(1), bounds.corner(2))
    } else if segment_hit(p, d, bounds.corner(2), bounds.corner(3)) is Some {
        segment_hit(p, d, bounds.corner(2), bounds.corner(3))
    } else {
        segment_hit(p, d, bounds.corner(3), bounds.corner(0))
    }
}

/// The point in which a ray meets the rectangle with the corners `c0` to `c3`,
/// counted clockwise from the top left, put on the side that the ray meets:
/// the hit on the first side that has one, the sides taken in the order top,
/// right, bottom, left, with the coordinate that the side fixes taken from the
/// corner in which the side begins.
pub open spec fn snapped_hit<T: Scalar>(
    p: Vec2<T>,
    d: Vec2<T>,
    c0: Vec2<T>,
    c1: Vec2<T>,
    c2: Vec2<T>,
    c3: Vec2<T>,
) -> Option<Vec2<T>> {
    if segment_hit(p, d, c0, c1) is Some {
        Some(point(segment_hit(p, d, c0, c1)->Some_0.x(), c0.y()))
    } else if segment_hit(p, d, c1, c2) is Some {
        Some(point(c1.x(), segment_hit(p, d, c1, c2)->Some_0.y()))
    } else if segment_hit(p, d, c2, c3) is Some {
        Some(point(segment_hit(p, d, c2, c3)->Some_0.x(), c2.y()))
    } else if segment_hit(p, d, c3, c0) is Some {
        Some(point(c3.x(), segment_hit(p, d, c3, c0)->Some_0.y()))
    } else {
        None
    }
}

/// The side of the rectangle that is tried last for a ray: the first side that
/// the ray meets, or the left side where it meets none before it. The sides
/// are counted from the top, clockwise; side `i` runs from corner `i` to the
/// corner after it.
pub open spec fn last_side<T: Scalar>(p: Vec2<T>, d: Vec2<T>, bounds: BoundingBox<T>) -> int {
    if segment_hit(p, d, bounds.corner(0), bounds.corner(1)) is Some {
        0
    } else if segment_hit(p, d, bounds.corner(1), bounds.corner(2)) is Some {
        1
    } else if segment_hit(p, d, bounds.corner(2), bounds.corner(3)) is Some {
        2
    } else {
        3
    }
}

/// The cross product `u.x v.y - v.x u.y`.
pub open spec fn cross<T: Scalar>(u: Vec2<T>, v: Vec2<T>) -> T {
    u.x().mul_spec(v.y()).sub_spec(v.x().mul_spec(u.y()))
}

/// The cross product `u.x v.y - u.y v.x`, by which a turn is judged.
pub open spec fn turn<T: Scalar>(u: Vec2<T>, v: Vec2<T>) -> T {
    u.x().mul_spec(v.y()).sub_spec(u.y().mul_spec(v.x()))
}

/// The square of the distance between two points.
pub open spec fn distance_squared<T: Scalar>(a: Vec2<T>, b: Vec2<T>) -> T {
    let dx = a.x().sub_spec(b.x());
    let dy = a.y().sub_spec(b.y());
    dx.mul_spec(dx).add_spec(dy.mul_spec(dy))
}

/// `center` is as far from the first point as from the second and as from the
/// third.
pub open spec fn equidistant<T: Scalar>(
    center: Vec2<T>,
    first: Vec2<T>,
    second: Vec2<T>,
    third: Vec2<T>,
) -> bool {
    &&& distance_squared(center, first) == distance_squared(center, second)
    &&& distance_squared(center, third) == distance_squared(center, second)
}

/// `p` lies on the line through `origin` in the direction `dir`.
pub open spec fn on_line<T: Scalar>(p: Vec2<T>, origin: Vec2<T>, dir: Vec2<T>) -> bool {
    exists|k: T| p == #[trigger] point_on_line(origin, dir, k)
}

/// The point halfway between two points.
pub open spec fn midpoint<T: Scalar>(a: Vec2<T>, b: Vec2<T>) -> Vec2<T> {
    point(
        a.x().add_spec(b.x()).div_spec(constant::<T>(2)),
        a.y().add_spec(b.y()).div_spec(constant::<T>(2)),
    )
}

/// The direction of the perpendicular bisector of the segment from `a` to `b`.
pub open spec fn bisector_direction<T: Scalar>(a: Vec2<T>, b: Vec2<T>) -> Vec2<T> {
    point(b.y().sub_spec(a.y()), a.x().sub_spec(b.x()))
}

/// The centre of the circle through three points: the common point of the
/// perpendicular bisectors of the first and second and of the third and
/// second point. `None` where the three points lie on one line.
pub open spec fn circle_center<T: Scalar>(p1: Vec2<T>, p2: Vec2<T>, p3: Vec2<T>) -> Option<
    Vec2<T>,
> {
    let d1 = bisector_direction(p1, p2);
    let d2 = bisector_direction(p3, p2);
    if same(cross(d1, d2), zero::<T>()) {
        None
    } else {
        line_hit(midpoint(p1, p2), d1, midpoint(p3, p2), d2)
    }
}

/// A helper to calculate intersections. It reuses one small matrix as scratch
/// space to avoid repeated memory allocations.
#[derive(Debug)]
pub struct IntersectionCalculator<T> {
    matrix: Matrix2x3<T>,
}

impl<T: Scalar> IntersectionCalculator<T> {
    /// The cells of the scratch matrix.
    pub closed spec fn scratch(&self) -> Seq<Seq<T>> {
        grid(&self.matrix)
    }

    /// Creates a new calculator, with a scratch matrix of two rows and three
    /// columns of default values.
    pub fn new() -> (calculator: IntersectionCalculator<T>)
        ensures
            calculator.scratch().len() == 2,
            forall|r: int, c: int|
                0 <= r < 2 && 0 <= c < 3 ==> call_ensures(
                    T::default,
                    (),
                    #[trigger] calculator.scratch()[r][c],
                ),
    {
        IntersectionCalculator { matrix: Matrix2x3::new() }
    }

    /// Sets the scratch matrix to the parameter equations of two lines.
    pub fn set_parameter_equations(
        &mut self,
        first_point: &Vec2<T>,
        first_dir: &Vec2<T>,
        second_point: &Vec2<T>,
        second_dir: &Vec2<T>,
    )
        requires
            total_ops::<T>(),
        ensures
            exact_scalar::<T>() ==> final(self).scratch() == parameter_grid(
                *first_point,
                *first_dir,
                *second_point,
                *second_dir,
            ),
    {
        self.matrix.set(0, 0, first_dir.get_x());
        self.matrix.set(0, 1, second_dir.get_x().neg());
        self.matrix.set(0, 2, first_point.get_x() - second_point.get_x());
        self.matrix.set(1, 0, first_dir.get_y());
        self.matrix.set(1, 1, second_dir.get_y().neg());
        self.matrix.set(1, 2, first_point.get_y() - second_point.get_y());
        proof {
            if exact_scalar::<T>() {
                let expected = parameter_grid(
                    *first_point,
                    *first_dir,
                    *second_point,
                    *second_dir,
                );
                assert(self.scratch() =~~= expected) by {
                    assert(self.scratch().len() == 2);
                    assert(self.scratch()[0] =~= expected[0]);
                    assert(self.scratch()[1] =~= expected[1]);
                }
            }
        }
    }

    /// Solves the system in the scratch matrix and returns the two parameters.
    pub fn solve_for_parameters(&mut self) -> (parameters: Option<(T, T)>)
        requires
            total_ops::<T>(),
        ensures
            exact_scalar::<T>() ==> parameters == match solution_of(old(self).scratch(), 2, 3) {
                Ok(s) => Some((s[0], s[1])),
                Err(_) => None::<(T, T)>,
            },
            exact_scalar::<T>() ==> is_row_arrangement(
                final(self).scratch(),
                worked_grid(old(self).scratch(), 2, 3),
            ),
    {
        match solve_from_matrix(&mut self.matrix) {
            Ok(solution) => Some((solution[0], solution[1])),
            Err(_) => None,
        }
    }

    /// Substitutes the parameter in the line equation: the point `point + param * dir`.
    pub fn substitute_parameter(point: &Vec2<T>, dir: &Vec2<T>, param: T) -> (p: Vec2<T>)
        requires
            total_ops::<T>(),
        ensures
            exact_scalar::<T>() ==> p == point_on_line(*point, *dir, param),
    {
        Vec2::from_values(point.get_x() + param * dir.get_x(), point.get_y() + param * dir.get_y())
    }

    /// Intersects two lines, each given by a point and a direction.
    pub fn line_with_line(
        &mut self,
        first_point: &Vec2<T>,
        first_dir: &Vec2<T>,
        second_point: &Vec2<T>,
        second_dir: &Vec2<T>,
    ) -> (hit: Option<Vec2<T>>)
        requires
            total_ops::<T>(),
        ensures
            exact_scalar::<T>() ==> hit == line_hit(
                *first_point,
                *first_dir,
                *second_point,
                *second_dir,
            ),
            exact_scalar::<T>() ==> is_row_arrangement(
                final(self).scratch(),
                worked_grid(
                    parameter_grid(*first_point, *first_dir, *second_point, *second_dir),
                    2,
                    3,
                ),
            ),
            exact_scalar::<T>() && is_field::<T>() ==> (hit matches Some(p) ==> on_line(
                p,
                *first_point,
                *first_dir,
            ) && on_line(p, *second_point, *second_dir)),
    {
        proof {
            if is_field::<T>() {
                lemma_hit_on_lines(*first_point, *first_dir, *second_point, *second_dir);
            }
        }
        self.set_parameter_equations(first_point, first_dir, second_point, second_dir);
        match self.solve_for_parameters() {
            Some((k, _)) => Some(Self::substitute_parameter(first_point, first_dir, k)),
            None => None,
        }
    }

    /// Intersects two rays, each given by its start and a direction.
    pub fn ray_with_ray(
        &mut self,
        first_point: &Vec2<T>,
        first_dir: &Vec2<T>,
        second_point: &Vec2<T>,
        second_dir: &Vec2<T>,
    ) -> (hit: Option<Vec2<T>>)
        requires
            total_ops::<T>(),
        ensures
            exact_scalar::<T>() ==> hit == ray_hit(
                *first_point,
                *first_dir,
                *second_point,
                *second_dir,
            ),
            exact_scalar::<T>() ==> is_row_arrangement(
                final(self).scratch(),
                worked_grid(
                    parameter_grid(*first_point, *first_dir, *second_point, *second_dir),
                    2,
                    3,
                ),
            ),
    {
        self.set_parameter_equations(first_point, first_dir, second_point, second_dir);
        match self.solve_for_parameters() {
            Some((k, j)) => {
                if k >= make_zero::<T>() && j >= make_zero::<T>() {
                    Some(Self::substitute_parameter(first_point, first_dir, k))
                } else {
                    None
                }
            },
            None => None,
        }
    }

    /// Intersects a ray with a segment, whose two ends belong to it.
    pub fn ray_with_segment(
        &mut self,
        first_point: &Vec2<T>,
        first_dir: &Vec2<T>,
        second_start: &Vec2<T>,
        second_end: &Vec2<T>,
    ) -> (hit: Option<Vec2<T>>)
        requires
            total_ops::<T>(),
        ensures
            exact_scalar::<T>() ==> hit == segment_hit(
                *first_point,
                *first_dir,
                *second_start,
                *second_end,
            ),
            exact_scalar::<T>() ==> is_row_arrangement(
                final(self).scratch(),
                worked_grid(
                    parameter_grid(
                        *first_point,
                        *first_dir,
                        *second_start,
                        direction(*second_start, *second_end),
                    ),
                    2,
                    3,
                ),
            ),
    {
        let second_dir = Vec2::from_values(
            second_end.get_x() - second_start.get_x(),
            second_end.get_y() - second_start.get_y(),
        );
        self.set_parameter_equations(first_point, first_dir, second_start, &second_dir);
        match self.solve_for_parameters() {
            Some((k, j)) => {
                if k >= make_zero::<T>() && j >= make_zero::<T>() && j <= make_constant::<T>(1) {
                    Some(Self::substitute_parameter(first_point, first_dir, k))
                } else {
                    None
                }
            },
            None => None,
        }
    }

    /// Intersects a ray with the border of a rectangle: the first hit among the
    /// four sides in the order top, right, bottom, left.
    pub fn ray_with_bounding_box(
        &mut self,
        first_point: &Vec2<T>,
        first_dir: &Vec2<T>,
        bounding_box: &BoundingBox<T>,
    ) -> (hit: Option<Vec2<T>>)
        requires
            total_ops::<T>(),
        ensures
            exact_scalar::<T>() ==> hit == box_hit(*first_point, *first_dir, *bounding_box),
            exact_scalar::<T>() ==> is_row_arrangement(
                final(self).scratch(),
                worked_grid(
                    parameter_grid(
                        *first_point,
                        *first_dir,
                        bounding_box.corner(last_side(*first_point, *first_dir, *bounding_box)),
                        direction(
                            bounding_box.corner(
                                last_side(*first_point, *first_dir, *bounding_box),
                            ),
                            bounding_box.corner(
                                (last_side(*first_point, *first_dir, *bounding_box) + 1) % 4,
                            ),
                        ),
                    ),
                    2,
                    3,
                ),
            ),
    {
        let c0 = bounding_box.get_corner(0);
        let c1 = bounding_box.get_corner(1);
        let c2 = bounding_box.get_corner(2);
        let c3 = bounding_box.get_corner(3);
        let top = self.ray_with_segment(first_point, first_dir, &c0, &c1);
        if top.is_some() {
            return top;
        }
        let right = self.ray_with_segment(first_point, first_dir, &c1, &c2);
        if right.is_some() {
            return right;
        }
        let bottom = self.ray_with_segment(first_point, first_dir, &c2, &c3);
        if bottom.is_some() {
            return bottom;
        }
        self.ray_with_segment(first_point, first_dir, &c3, &c0)
    }

    /// Returns the centre and the radius of the circle through three points, or
    /// `None` where they lie on one line. `sqrt` is the square root of the scalar
    /// type; it is called once, on the square of the radius.
    pub fn circle_through_points<F: Fn(T) -> T>(
        &mut self,
        first_point: &Vec2<T>,
        second_point: &Vec2<T>,
        third_point: &Vec2<T>,
        sqrt: &F,
    ) -> (circle: Option<(Vec2<T>, T)>)
        requires
            total_ops::<T>(),
            total_fn(sqrt),
        ensures
            exact_scalar::<T>() ==> match circle_center(*first_point, *second_point, *third_point) {
                Some(center) => circle is Some && circle->Some_0.0 == center && call_ensures(
                    sqrt,
                    (distance_squared(center, *first_point),),
                    circle->Some_0.1,
                ),
                None => circle is None,
            },
            exact_scalar::<T>() && is_field::<T>() && has_halves::<T>() ==> (circle matches Some(
                found,
            ) ==> equidistant(found.0, *first_point, *second_point, *third_point)),
            exact_scalar::<T>() ==> if same(
                cross(
                    bisector_direction(*first_point, *second_point),
                    bisector_direction(*third_point, *second_point),
                ),
                zero::<T>(),
            ) {
                final(self).scratch() == old(self).scratch()
            } else {
                is_row_arrangement(
                    final(self).scratch(),
                    worked_grid(
                        parameter_grid(
                            midpoint(*first_point, *second_point),
                            bisector_direction(*first_point, *second_point),
                            midpoint(*third_point, *second_point),
                            bisector_direction(*third_point, *second_point),
                        ),
                        2,
                        3,
                    ),
                )
            },
    {
        proof {
            if is_field::<T>() && has_halves::<T>() && circle_center(
                *first_point,
                *second_point,
                *third_point,
            ) is Some {
                lemma_circle_center(*first_point, *second_point, *third_point);
            }
        }
        let d1 = Vec2::from_values(
            second_point.get_y() - first_point.get_y(),
            first_point.get_x() - second_point.get_x(),
        );
        let d2 = Vec2::from_values(
            second_point.get_y() - third_point.get_y(),
            third_point.get_x() - second_point.get_x(),
        );
        if vectors_are_dependent(&d1, &d2) {
            None
        } else {
            let two = make_constant::<T>(2);
            let p1 = Vec2::from_values(
                (first_point.get_x() + second_point.get_x()) / two,
                (first_point.get_y() + second_point.get_y()) / two,
            );
            let p2 = Vec2::from_values(
                (third_point.get_x() + second_point.get_x()) / two,
                (third_point.get_y() + second_point.get_y()) / two,
            );
            match self.line_with_line(&p1, &d1, &p2, &d2) {
                Some(focus) => {
                    let radius = distance_between_points(&focus, first_point, sqrt);
                    Some((focus, radius))
                },
                None => None,
            }
        }
    }
}

/// Intersects two lines specified by two start points and two directions.
/// Returns `None` if both lines are either identical or parallel.
pub fn intersect_line_with_line<T: Scalar>(
    first_point: &Vec2<T>,
    first_dir: &Vec2<T>,
    second_point: &Vec2<T>,
    second_dir: &Vec2<T>,
) -> (hit: Option<Vec2<T>>)
    requires
        total_ops::<T>(),
    ensures
        exact_scalar::<T>() ==> hit == line_hit(*first_point, *first_dir, *second_point, *second_dir),
        exact_scalar::<T>() && is_field::<T>() ==> (hit matches Some(p) ==> on_line(
            p,
            *first_point,
            *first_dir,
        ) && on_line(p, *second_point, *second_dir)),
{
    let mut calculator = IntersectionCalculator::new();
    calculator.line_with_line(first_point, first_dir, second_point, second_dir)
}

/// Intersects two rays specified by two start points and two directions.
/// Returns `None` if both rays are identical, parallel or do not intersect.
pub fn intersect_ray_with_ray<T: Scalar>(
    first_point: &Vec2<T>,
    first_dir: &Vec2<T>,
    second_point: &Vec2<T>,
    second_dir: &Vec2<T>,
) -> (hit: Option<Vec2<T>>)
    requires
        total_ops::<T>(),
    ensures
        exact_scalar::<T>() ==> hit == ray_hit(*first_point, *first_dir, *second_point, *second_dir),
{
    let mut calculator = IntersectionCalculator::new();
    calculator.ray_with_ray(first_point, first_dir, second_point, second_dir)
}

/// Intersects a ray, specified by its start and a direction, with the segment
/// between two points. Returns `None` if they do not intersect.
pub fn intersect_ray_with_segment<T: Scalar>(
    first_point: &Vec2<T>,
    first_dir: &Vec2<T>,
    second_start: &Vec2<T>,
    second_end: &Vec2<T>,
) -> (hit: Option<Vec2<T>>)
    requires
        total_ops::<T>(),
    ensures
        exact_scalar::<T>() ==> hit == segment_hit(
            *first_point,
            *first_dir,
            *second_start,
            *second_end,
        ),
{
    let mut calculator = IntersectionCalculator::new();
    calculator.ray_with_segment(first_point, first_dir, second_start, second_end)
}

/// Intersects a ray with a bounding box.
pub fn intersect_ray_with_bounding_box<T: Scalar>(
    first_point: &Vec2<T>,
    first_dir: &Vec2<T>,
    bounding_box: &BoundingBox<T>,
) -> (hit: Option<Vec2<T>>)
    requires
        total_ops::<T>(),
    ensures
        exact_scalar::<T>() ==> hit == box_hit(*first_point, *first_dir, *bounding_box),
{
    let mut calculator = IntersectionCalculator::new();
    calculator.ray_with_bounding_box(first_point, first_dir, bounding_box)
}

/// Intersection between two parabolas.
#[derive(Debug, PartialEq, Clone, Copy)]
pub enum ParabolaIntersection<T> {
    /// No intersections.
    NoPoint,
    /// One intersection.
    One(Vec2<T>),
    /// Two intersections, the one with the smaller `x` first.
    Two(Vec2<T>, Vec2<T>),
    /// An infinite amount of intersections: the parabolas are identical.
    Infinite,
}

/// The coefficients `(a, b, c)` of the parabola `y = a x^2 + b x + c` of the
/// points that are as far from `focus` as from the line `y = dir_y`.
pub open spec fn parabola_of<T: Scalar>(focus: Vec2<T>, dir_y: T) -> (T, T, T) {
    let a = constant::<T>(1).div_spec(constant::<T>(2).mul_spec(focus.y().sub_spec(dir_y)));
    let b = constant::<T>(2).neg_spec().mul_spec(focus.x()).mul_spec(a);
    let c = focus.x().mul_spec(focus.x()).add_spec(focus.y().mul_spec(focus.y())).sub_spec(
        dir_y.mul_spec(dir_y),
    ).mul_spec(a);
    (a, b, c)
}

/// The point of the parabola with the coefficients `p` above `x`.
pub open spec fn parabola_point<T: Scalar>(p: (T, T, T), x: T) -> Vec2<T> {
    point(x, p.0.mul_spec(x).mul_spec(x).add_spec(p.1.mul_spec(x)).add_spec(p.2))
}

/// The coefficients of the difference of two parabolas, second less first.
pub open spec fn parabola_difference<T: Scalar>(p1: (T, T, T), p2: (T, T, T)) -> (T, T, T) {
    (p2.0.sub_spec(p1.0), p2.1.sub_spec(p1.1), p2.2.sub_spec(p1.2))
}

/// All three coefficients are zero.
pub open spec fn all_zero<T: Scalar>(d: (T, T, T)) -> bool {
    same(d.0, zero::<T>()) && same(d.1, zero::<T>()) && same(d.2, zero::<T>())
}

/// The intersection of the parabolas of two foci, given the square root `root`
/// of the discriminant of their difference.
pub open spec fn parabola_hits<T: Scalar>(
    first_focus: Vec2<T>,
    second_focus: Vec2<T>,
    dir_y: T,
    root: T,
) -> ParabolaIntersection<T> {
    let p1 = parabola_of(first_focus, dir_y);
    let p2 = parabola_of(second_focus, dir_y);
    let d = parabola_difference(p1, p2);
    if all_zero(d) {
        ParabolaIntersection::Infinite
    } else {
        match solution_with_root(d.0, d.1, d.2, root) {
            Solution::NoRoots => ParabolaIntersection::NoPoint,
            Solution::One(x) => ParabolaIntersection::One(parabola_point(p1, x)),
            Solution::Two(x1, x2) => ParabolaIntersection::Two(
                parabola_point(p1, x1),
                parabola_point(p1, x2),
            ),
        }
    }
}

/// Calculates a parabola from a focus and a horizontal directrix: the points
/// `P` with `dist(P, focus) = dist(P, directrix)`.
pub fn calc_parabola_from_focus<T: Scalar>(focus: &Vec2<T>, dir_y: T) -> (p: (T, T, T))
    requires
        total_ops::<T>(),
    ensures
        exact_scalar::<T>() ==> p == parabola_of(*focus, dir_y),
{
    let a = make_constant::<T>(1) / (make_constant::<T>(2) * (focus.get_y() - dir_y));
    let b = make_constant::<T>(2).neg() * focus.get_x() * a;
    let c = (focus.get_x() * focus.get_x() + focus.get_y() * focus.get_y() - dir_y * dir_y) * a;
    (a, b, c)
}

/// Calculates the intersection between two parabolas specified by their foci
/// and a horizontal directrix. `sqrt` is the square root of the scalar type.
///
/// Neither focus is meant to lie on the directrix.
pub fn intersect_parabolas_from_foci<T: Scalar, F: Fn(T) -> T>(
    first_focus: &Vec2<T>,
    second_focus: &Vec2<T>,
    dir_y: T,
    sqrt: &F,
) -> (hits: ParabolaIntersection<T>)
    requires
        total_ops::<T>(),
        total_fn(sqrt),
    ensures
        exact_scalar::<T>() ==> exists|root: T|
            {
                let d = parabola_difference(
                    parabola_of(*first_focus, dir_y),
                    parabola_of(*second_focus, dir_y),
                );
                &&& !all_zero(d) && gt(discriminant(d.0, d.1, d.2), zero::<T>()) ==> call_ensures(
                    sqrt,
                    (discriminant(d.0, d.1, d.2),),
                    root,
                )
                &&& hits == #[trigger] parabola_hits(*first_focus, *second_focus, dir_y, root)
            },
{
    let (a1, b1, c1) = calc_parabola_from_focus(first_focus, dir_y);
    let (a2, b2, c2) = calc_parabola_from_focus(second_focus, dir_y);
    let a = a2 - a1;
    let b = b2 - b1;
    let c = c2 - c1;
    if a == make_zero::<T>() && b == make_zero::<T>() && c == make_zero::<T>() {
        proof {
            if exact_scalar::<T>() {
                assert(ParabolaIntersection::<T>::Infinite == parabola_hits(
                    *first_focus,
                    *second_focus,
                    dir_y,
                    a,
                ));
            }
        }
        ParabolaIntersection::Infinite
    } else {
        let solution = solve(a, b, c, sqrt);
        let hits = match solution {
            Solution::NoRoots => ParabolaIntersection::NoPoint,
            Solution::One(x) => ParabolaIntersection::One(
                Vec2::from_values(x, a1 * x * x + b1 * x + c1),
            ),
            Solution::Two(x1, x2) => ParabolaIntersection::Two(
                Vec2::from_values(x1, a1 * x1 * x1 + b1 * x1 + c1),
                Vec2::from_values(x2, a1 * x2 * x2 + b1 * x2 + c1),
            ),
        };
        proof {
            if exact_scalar::<T>() {
                let root = choose|root: T|
                    {
                        &&& gt(discriminant(a, b, c), zero::<T>()) ==> call_ensures(
                            sqrt,
                            (discriminant(a, b, c),),
                            root,
                        )
                        &&& solution == #[trigger] solution_with_root(a, b, c, root)
                    };
                assert(hits == parabola_hits(*first_focus, *second_focus, dir_y, root));
            }
        }
        hits
    }
}

/// Calculates the distance between two points. `sqrt` is the square root of the
/// scalar type; it is called on the square of the distance.
pub fn distance_between_points<T: Scalar, F: Fn(T) -> T>(
    first: &Vec2<T>,
    second: &Vec2<T>,
    sqrt: &F,
) -> (distance: T)
    requires
        total_ops::<T>(),
        total_fn(sqrt),
    ensures
        exact_scalar::<T>() ==> call_ensures(sqrt, (distance_squared(*first, *second),), distance),
{
    let dx = first.get_x() - second.get_x();
    let dy = first.get_y() - second.get_y();
    sqrt(dx * dx + dy * dy)
}

/// Tests whether two vectors are dependent: whether their cross product is zero.
pub fn vectors_are_dependent<T: Scalar>(first: &Vec2<T>, second: &Vec2<T>) -> (dependent: bool)
    requires
        total_ops::<T>(),
    ensures
        exact_scalar::<T>() ==> dependent == same(cross(*first, *second), zero::<T>()),
{
    first.get_x() * second.get_y() - second.get_x() * first.get_y() == make_zero::<T>()
}

/// Returns the centre and radius of a circle through the three specified points,
/// or `None` if they are colinear. `sqrt` is the square root of the scalar type.
pub fn circle_through_points<T: Scalar, F: Fn(T) -> T>(
    first: &Vec2<T>,
    second: &Vec2<T>,
    third: &Vec2<T>,
    sqrt: &F,
) -> (circle: Option<(Vec2<T>, T)>)
    requires
        total_ops::<T>(),
        total_fn(sqrt),
    ensures
        exact_scalar::<T>() ==> match circle_center(*first, *second, *third) {
            Some(center) => circle is Some && circle->Some_0.0 == center && call_ensures(
                sqrt,
                (distance_squared(center, *first),),
                circle->Some_0.1,
            ),
            None => circle is None,
        },
        exact_scalar::<T>() && is_field::<T>() && has_halves::<T>() ==> (circle matches Some(
            found,
        ) ==> equidistant(found.0, *first, *second, *third)),
{
    let mut calculator = IntersectionCalculator::new();
    calculator.circle_through_points(first, second, third, sqrt)
}

/// Checks whether two vectors represent a clockwise turn: whether the cross
/// product `first.x * second.y - first.y * second.x` is below zero.
pub fn is_clockwise<T: Scalar>(first: &Vec2<T>, second: &Vec2<T>) -> (clockwise: bool)
    requires
        total_ops::<T>(),
    ensures
        exact_scalar::<T>() ==> clockwise == lt(turn(*first, *second), zero::<T>()),
{
    if first.get_x() * second.get_y() - first.get_y() * second.get_x() < make_zero::<T>() {
        true
    } else {
        false
    }
}

/// Over a field, the parameters of the common point of two lines name one
/// point on both lines: `p1 + k d1 = p2 + j d2`.
pub proof fn lemma_lines_meet<T: Scalar>(p1: Vec2<T>, d1: Vec2<T>, p2: Vec2<T>, d2: Vec2<T>)
    requires
        is_field::<T>(),
        line_parameters(p1, d1, p2, d2) is Some,
    ensures
        ({
            let (k, j) = line_parameters(p1, d1, p2, d2)->Some_0;
            point_on_line(p1, d1, k) == point_on_line(p2, d2, j)
        }),
{
    let g = parameter_grid(p1, d1, p2, d2);
    let x = solution_of(g, 2, 3)->Ok_0;
    let (k, j) = line_parameters(p1, d1, p2, d2)->Some_0;
    lemma_solution_solves(g, 2);
    assert(k == x[0] && j == x[1]);
    assert(residual(g[0], x) == zero::<T>());
    assert(residual(g[1], x) == zero::<T>());
    assert(row_sum(g[0], x, 2) == row_sum(g[0], x, 1).add_spec(g[0][1].mul_spec(x[1])));
    assert(row_sum(g[0], x, 1) == row_sum(g[0], x, 0).add_spec(g[0][0].mul_spec(x[0])));
    assert(row_sum(g[1], x, 2) == row_sum(g[1], x, 1).add_spec(g[1][1].mul_spec(x[1])));
    assert(row_sum(g[1], x, 1) == row_sum(g[1], x, 0).add_spec(g[1][0].mul_spec(x[0])));
    lemma_line_equation(d1.x(), k, d2.x(), j, p1.x(), p2.x());
    lemma_line_equation(d1.y(), k, d2.y(), j, p1.y(), p2.y());
    assert(point_on_line(p1, d1, k).values =~= point_on_line(p2, d2, j).values);
}

/// Over a field, the common point of two lines lies on both.
pub proof fn lemma_hit_on_lines<T: Scalar>(p1: Vec2<T>, d1: Vec2<T>, p2: Vec2<T>, d2: Vec2<T>)
    requires
        is_field::<T>(),
    ensures
        line_hit(p1, d1, p2, d2) matches Some(p) ==> on_line(p, p1, d1) && on_line(p, p2, d2),
{
    if line_parameters(p1, d1, p2, d2) is Some {
        let (k, j) = line_parameters(p1, d1, p2, d2)->Some_0;
        let p = point_on_line(p1, d1, k);
        lemma_lines_meet(p1, d1, p2, d2);
        assert(p == point_on_line(p2, d2, j));
    }
}

/// Over a field with halves, every point of the perpendicular bisector of two
/// points is as far from the one as from the other.
pub proof fn lemma_bisector_point<T: Scalar>(a: Vec2<T>, b: Vec2<T>, k: T)
    requires
        is_field::<T>(),
        has_halves::<T>(),
    ensures
        distance_squared(point_on_line(midpoint(a, b), bisector_direction(a, b), k), a)
            == distance_squared(
            point_on_line(midpoint(a, b), bisector_direction(a, b), k),
            b,
        ),
{
    let m = midpoint(a, b);
    let d = bisector_direction(a, b);
    let c = point_on_line(m, d, k);
    let t = k.mul_spec(d.x());
    let s = k.mul_spec(d.y());
    let ax = m.x().sub_spec(a.x());
    let ay = m.y().sub_spec(a.y());
    assert(m.x() == a.x().add_spec(b.x()).div_spec(constant::<T>(2)));
    assert(m.y() == a.y().add_spec(b.y()).div_spec(constant::<T>(2)));
    assert(d.x() == b.y().sub_spec(a.y()));
    assert(d.y() == a.x().sub_spec(b.x()));
    assert(c.x() == m.x().add_spec(t));
    assert(c.y() == m.y().add_spec(s));
    // the midpoint lies halfway
    lemma_half_sum(a.x().add_spec(b.x()));
    lemma_half_sum(a.y().add_spec(b.y()));
    lemma_halfway(m.x(), a.x(), b.x());
    lemma_halfway(m.y(), a.y(), b.y());
    // the differences of the point from the two ends
    lemma_sub_move(m.x(), t, a.x());
    lemma_sub_move(m.y(), s, a.y());
    lemma_sub_move(m.x(), t, b.x());
    lemma_sub_move(m.y(), s, b.y());
    assert(c.x().sub_spec(a.x()) == ax.add_spec(t));
    assert(c.y().sub_spec(a.y()) == ay.add_spec(s));
    assert(c.x().sub_spec(b.x()) == ax.neg_spec().add_spec(t));
    assert(c.y().sub_spec(b.y()) == ay.neg_spec().add_spec(s));
    // the direction in terms of the half differences
    lemma_sub_sub(m.x(), a.x(), b.x());
    lemma_sub(ax, ax.neg_spec());
    lemma_neg_neg(ax);
    lemma_neg_sub(b.x(), a.x());
    lemma_sub_sub(m.y(), a.y(), b.y());
    lemma_sub(ay, ay.neg_spec());
    lemma_neg_neg(ay);
    assert(d.x() == ay.add_spec(ay));
    assert(d.y() == ax.add_spec(ax).neg_spec());
    lemma_orthogonal(ax, ay, k);
    // the squares
    lemma_square_sum(ax, t);
    lemma_square_sum(ay, s);
    lemma_square_difference(ax, t);
    lemma_square_difference(ay, s);
    lemma_double_zero(ax.mul_spec(t), ay.mul_spec(s));
    lemma_equal_norms(
        ax.mul_spec(ax).add_spec(t.mul_spec(t)),
        ax.mul_spec(t).add_spec(ax.mul_spec(t)),
        ay.mul_spec(ay).add_spec(s.mul_spec(s)),
        ay.mul_spec(s).add_spec(ay.mul_spec(s)),
    );
}

/// Over a field with halves, the centre of the circle through three points is
/// as far from the first point as from the second and as from the third.
pub proof fn lemma_circle_center<T: Scalar>(p1: Vec2<T>, p2: Vec2<T>, p3: Vec2<T>)
    requires
        is_field::<T>(),
        has_halves::<T>(),
        circle_center(p1, p2, p3) is Some,
    ensures
        distance_squared(circle_center(p1, p2, p3)->Some_0, p1) == distance_squared(
            circle_center(p1, p2, p3)->Some_0,
            p2,
        ),
        distance_squared(circle_center(p1, p2, p3)->Some_0, p3) == distance_squared(
            circle_center(p1, p2, p3)->Some_0,
            p2,
        ),
{
    let m1 = midpoint(p1, p2);
    let d1 = bisector_direction(p1, p2);
    let m2 = midpoint(p3, p2);
    let d2 = bisector_direction(p3, p2);
    let (k, j) = line_parameters(m1, d1, m2, d2)->Some_0;
    lemma_lines_meet(m1, d1, m2, d2);
    lemma_bisector_point(p1, p2, k);
    lemma_bisector_point(p3, p2, j);
}

/// Over a field, the points in which the parabolas of two foci meet lie on both
/// parabolas, where `root` squared is the discriminant of the difference of
/// the two and the two do not open equally wide.
pub proof fn lemma_parabolas_meet<T: Scalar>(
    first_focus: Vec2<T>,
    second_focus: Vec2<T>,
    dir_y: T,
    root: T,
)
    requires
        is_field::<T>(),
        has_halves::<T>(),
        has_four::<T>(),
        ({
            let d = parabola_difference(
                parabola_of(first_focus, dir_y),
                parabola_of(second_focus, dir_y),
            );
            d.0 != zero::<T>() && root.mul_spec(root) == discriminant(d.0, d.1, d.2)
        }),
    ensures
        match parabola_hits(first_focus, second_focus, dir_y, root) {
            ParabolaIntersection::Two(i1, i2) => {
                &&& i1 == parabola_point(parabola_of(first_focus, dir_y), i1.x())
                &&& i1 == parabola_point(parabola_of(second_focus, dir_y), i1.x())
                &&& i2 == parabola_point(parabola_of(first_focus, dir_y), i2.x())
                &&& i2 == parabola_point(parabola_of(second_focus, dir_y), i2.x())
            },
            _ => true,
        },
{
    let p1 = parabola_of(first_focus, dir_y);
    let p2 = parabola_of(second_focus, dir_y);
    let d = parabola_difference(p1, p2);
    lemma_same(d.0, zero::<T>());
    lemma_roots_are_roots(d.0, d.1, d.2, root);
    match solution_with_root(d.0, d.1, d.2, root) {
        Solution::Two(x1, x2) => {
            lemma_value_of_difference(p1, p2, x1);
            lemma_value_of_difference(p1, p2, x2);
            lemma_sub_is_zero(value_at(p2.0, p2.1, p2.2, x1), value_at(p1.0, p1.1, p1.2, x1));
            lemma_sub_is_zero(value_at(p2.0, p2.1, p2.2, x2), value_at(p1.0, p1.1, p1.2, x2));
            assert(parabola_point(p1, x1).values =~= parabola_point(p2, x1).values);
            assert(parabola_point(p1, x2).values =~= parabola_point(p2, x2).values);
        },
        _ => {},
    }
}

/// Over a field with halves, every point of the parabola of a focus and a
/// horizontal directrix is as far from the focus as from the directrix, where
/// the focus does not lie on the directrix.
pub proof fn lemma_parabola_point<T: Scalar>(focus: Vec2<T>, dir_y: T, x: T)
    requires
        is_field::<T>(),
        has_halves::<T>(),
        focus.y() != dir_y,
    ensures
        ({
            let p = parabola_point(parabola_of(focus, dir_y), x);
            distance_squared(p, focus) == p.y().sub_spec(dir_y).mul_spec(p.y().sub_spec(dir_y))
        }),
{
    let z = zero::<T>();
    let one = constant::<T>(1);
    let two = constant::<T>(2);
    let fx = focus.x();
    let fy = focus.y();
    let w = fy.sub_spec(dir_y);
    let h = two.mul_spec(w);
    let (a, b, c) = parabola_of(focus, dir_y);
    let s = fx.mul_spec(fx).add_spec(fy.mul_spec(fy)).sub_spec(dir_y.mul_spec(dir_y));
    let y = value_at(a, b, c, x);
    let xx = x.mul_spec(x);
    let fxx = fx.mul_spec(x);
    let p = xx.add_spec(fxx.add_spec(fxx).neg_spec());
    assert(parabola_point((a, b, c), x).x() == x);
    assert(parabola_point((a, b, c), x).y() == y);
    // the coefficient a is the inverse of twice the distance of focus and directrix
    if w == z {
        lemma_sub_is_zero(fy, dir_y);
    }
    lemma_double(w);
    if h == z {
        lemma_zero_product(two, w);
    }
    lemma_div_mul(one, h);
    assert(a.mul_spec(h) == one);
    // y h = (x x - 2 fx x) + s
    let first = a.mul_spec(x).mul_spec(x);
    let second = b.mul_spec(x);
    let g = two.neg_spec().mul_spec(fx);
    lemma_distribute_right(first.add_spec(second), c, h);
    lemma_distribute_right(first, second, h);
    lemma_mul_assoc(a, x, x);
    lemma_mul_comm(a, xx);
    lemma_times_unit(xx, a, h);
    lemma_mul_swap(g, a, x);
    lemma_times_unit(g.mul_spec(x), a, h);
    lemma_mul_assoc(two.neg_spec(), fx, x);
    lemma_neg_mul(two, fxx);
    lemma_double(fxx);
    lemma_times_unit(s, a, h);
    assert(y.mul_spec(h) == p.add_spec(s));
    // the two distances differ by w
    let u = y.sub_spec(fy);
    let v = y.sub_spec(dir_y);
    lemma_sub_chain(y, fy, dir_y);
    lemma_square_sum(u, w);
    let uw = u.mul_spec(w);
    assert(v.mul_spec(v) == u.mul_spec(u).add_spec(w.mul_spec(w)).add_spec(uw.add_spec(uw)));
    // u w + u w = y h - (fy + fy) w
    let ff = fy.add_spec(fy);
    lemma_distribute_right(u, u, w);
    lemma_sub_add(y, fy, y, fy);
    lemma_distribute_sub(y.add_spec(y), ff, w);
    lemma_distribute_right(y, y, w);
    lemma_distribute(y, w, w);
    assert(uw.add_spec(uw) == p.add_spec(s).sub_spec(ff.mul_spec(w)));
    // s = fx fx + w (fy + d)
    let c0 = fx.mul_spec(fx);
    let e = fy.add_spec(dir_y);
    lemma_sub(c0.add_spec(fy.mul_spec(fy)), dir_y.mul_spec(dir_y));
    lemma_add_assoc(c0, fy.mul_spec(fy), dir_y.mul_spec(dir_y).neg_spec());
    lemma_sub(fy.mul_spec(fy), dir_y.mul_spec(dir_y));
    lemma_difference_of_squares(fy, dir_y);
    assert(s == c0.add_spec(w.mul_spec(e)));
    lemma_zero_bracket(fy, dir_y);
    lemma_collapse(w, p, s, ff, c0, e);
    let rest = w.mul_spec(w).add_spec(uw.add_spec(uw));
    assert(rest == p.add_spec(c0));
    // (x - fx)^2 = (x x - 2 fx x) + fx fx
    let dx = x.sub_spec(fx);
    lemma_sub(x, fx);
    lemma_add_comm(x, fx.neg_spec());
    lemma_square_difference(fx, x);
    lemma_add_comm(c0, xx);
    lemma_add_assoc(xx, c0, fxx.add_spec(fxx).neg_spec());
    lemma_add_comm(c0, fxx.add_spec(fxx).neg_spec());
    lemma_add_assoc(xx, fxx.add_spec(fxx).neg_spec(), c0);
    assert(dx.mul_spec(dx) == rest);
    // dx^2 + u^2 = (u^2 + w^2) + (u w + u w)
    let uu = u.mul_spec(u);
    lemma_add_comm(rest, uu);
    lemma_add_assoc(uu, w.mul_spec(w), uw.add_spec(uw));
}

/// Over a field with halves, the points in which the parabolas of two foci
/// meet are as far from either focus as from the directrix, where neither
/// focus lies on the directrix, the parabolas do not open equally wide, and
/// `root` squared is the discriminant of their difference.
pub proof fn lemma_breakpoints<T: Scalar>(
    first_focus: Vec2<T>,
    second_focus: Vec2<T>,
    dir_y: T,
    root: T,
)
    requires
        is_field::<T>(),
        has_halves::<T>(),
        has_four::<T>(),
        first_focus.y() != dir_y,
        second_focus.y() != dir_y,
        ({
            let d = parabola_difference(
                parabola_of(first_focus, dir_y),
                parabola_of(second_focus, dir_y),
            );
            d.0 != zero::<T>() && root.mul_spec(root) == discriminant(d.0, d.1, d.2)
        }),
    ensures
        match parabola_hits(first_focus, second_focus, dir_y, root) {
            ParabolaIntersection::Two(i1, i2) => {
                &&& distance_squared(i1, first_focus) == i1.y().sub_spec(dir_y).mul_spec(
                    i1.y().sub_spec(dir_y),
                )
                &&& distance_squared(i1, second_focus) == distance_squared(i1, first_focus)
                &&& distance_squared(i2, first_focus) == i2.y().sub_spec(dir_y).mul_spec(
                    i2.y().sub_spec(dir_y),
                )
                &&& distance_squared(i2, second_focus) == distance_squared(i2, first_focus)
            },
            _ => true,
        },
{
    lemma_parabolas_meet(first_focus, second_focus, dir_y, root);
    match parabola_hits(first_focus, second_focus, dir_y, root) {
        ParabolaIntersection::Two(i1, i2) => {
            lemma_parabola_point(first_focus, dir_y, i1.x());
            lemma_parabola_point(second_focus, dir_y, i1.x());
            lemma_parabola_point(first_focus, dir_y, i2.x());
            lemma_parabola_point(second_focus, dir_y, i2.x());
        },
        _ => {},
    }
}

/// `q` lies on the border of the rectangle from `(0, 0)` to `(width, height)`:
/// on its top, right, bottom or left side.
pub open spec fn on_border<T: Scalar>(q: Vec2<T>, width: T, height: T) -> bool {
    let z = zero::<T>();
    ||| q.y() == z && le(z, q.x()) && le(q.x(), width)
    ||| q.x() == width && le(z, q.y()) && le(q.y(), height)
    ||| q.y() == height && le(z, q.x()) && le(q.x(), width)
    ||| q.x() == z && le(z, q.y()) && le(q.y(), height)
}

/// The bounding box is the rectangle from `(0, 0)` to `(width, height)`.
pub open spec fn frames<T: Scalar>(bounds: BoundingBox<T>, width: T, height: T) -> bool {
    let z = zero::<T>();
    &&& bounds.corner(0) == point(z, z)
    &&& bounds.corner(1) == point(width, z)
    &&& bounds.corner(2) == point(width, height)
    &&& bounds.corner(3) == point(z, height)
}

/// Over a field, the point in which a ray meets a segment is the point of the
/// segment at some part `j` of the way from its start to its end, with
/// `0 <= j <= 1`.
pub proof fn lemma_segment_point<T: Scalar>(p: Vec2<T>, d: Vec2<T>, start: Vec2<T>, end: Vec2<T>)
    requires
        is_field::<T>(),
        is_ordered::<T>(),
        segment_hit(p, d, start, end) is Some,
    ensures
        exists|j: T|
            {
                &&& le(zero::<T>(), j)
                &&& le(j, constant::<T>(1))
                &&& segment_hit(p, d, start, end)->Some_0 == #[trigger] point_on_line(
                    start,
                    direction(start, end),
                    j,
                )
            },
{
    let dir = direction(start, end);
    let (k, j) = line_parameters(p, d, start, dir)->Some_0;
    lemma_lines_meet(p, d, start, dir);
    lemma_ge(j, zero::<T>());
    assert(segment_hit(p, d, start, end)->Some_0 == point_on_line(start, dir, j));
}

/// Over an ordered field, the point in which a ray meets the bounding rectangle
/// lies on the border of the rectangle, exactly on the side that the ray
/// meets: to put it there changes nothing.
pub proof fn lemma_box_hit_on_border<T: Scalar>(
    p: Vec2<T>,
    d: Vec2<T>,
    bounds: BoundingBox<T>,
    width: T,
    height: T,
)
    requires
        is_field::<T>(),
        has_halves::<T>(),
        is_ordered::<T>(),
        le(zero::<T>(), width),
        le(zero::<T>(), height),
        frames(bounds, width, height),
        box_hit(p, d, bounds) is Some,
    ensures
        on_border(box_hit(p, d, bounds)->Some_0, width, height),
        snapped_hit(
            p,
            d,
            bounds.corner(0),
            bounds.corner(1),
            bounds.corner(2),
            bounds.corner(3),
        ) == box_hit(p, d, bounds),
{
    let z = zero::<T>();
    let c0 = bounds.corner(0);
    let c1 = bounds.corner(1);
    let c2 = bounds.corner(2);
    let c3 = bounds.corner(3);
    let q = box_hit(p, d, bounds)->Some_0;
    if segment_hit(p, d, c0, c1) is Some {
        lemma_segment_point(p, d, c0, c1);
        let j = choose|j: T|
            le(z, j) && le(j, constant::<T>(1)) && q == #[trigger] point_on_line(
                c0,
                direction(c0, c1),
                j,
            );
        lemma_axis_up(j, width);
        lemma_axis_fixed(z, j);
        lemma_part(j, width);
        assert(q.x() == j.mul_spec(width));
        assert(q.y() == z);
        assert(point(q.x(), c0.y()).values =~= q.values);
    } else if segment_hit(p, d, c1, c2) is Some {
        lemma_segment_point(p, d, c1, c2);
        let j = choose|j: T|
            le(z, j) && le(j, constant::<T>(1)) && q == #[trigger] point_on_line(
                c1,
                direction(c1, c2),
                j,
            );
        lemma_axis_fixed(width, j);
        lemma_axis_up(j, height);
        lemma_part(j, height);
        assert(q.x() == width);
        assert(q.y() == j.mul_spec(height));
        assert(point(c1.x(), q.y()).values =~= q.values);
    } else if segment_hit(p, d, c2, c3) is Some {
        lemma_segment_point(p, d, c2, c3);
        let j = choose|j: T|
            le(z, j) && le(j, constant::<T>(1)) && q == #[trigger] point_on_line(
                c2,
                direction(c2, c3),
                j,
            );
        lemma_axis_down(j, width);
        lemma_axis_fixed(height, j);
        lemma_part(j, width);
        assert(q.x() == width.add_spec(j.mul_spec(width).neg_spec()));
        assert(q.y() == height);
        assert(point(q.x(), c2.y()).values =~= q.values);
    } else {
        lemma_segment_point(p, d, c3, c0);
        let j = choose|j: T|
            le(z, j) && le(j, constant::<T>(1)) && q == #[trigger] point_on_line(
                c3,
                direction(c3, c0),
                j,
            );
        lemma_axis_fixed(z, j);
        lemma_axis_down(j, height);
        lemma_part(j, height);
        assert(q.x() == z);
        assert(q.y() == height.add_spec(j.mul_spec(height).neg_spec()));
        assert(point(c3.x(), q.y()).values =~= q.values);
    }
}

/// Over an ordered field, the bounding box between `0` and a width and between
/// `0` and a height that are not below zero is the rectangle from `(0, 0)` to
/// `(width, height)`.
pub proof fn lemma_box_frames<T: Scalar>(bounds: BoundingBox<T>, width: T, height: T)
    requires
        is_ordered::<T>(),
        le(zero::<T>(), width),
        le(zero::<T>(), height),
        bounds.corner(0) == point(lower(zero::<T>(), width), lower(zero::<T>(), height)),
        bounds.corner(1) == point(upper(zero::<T>(), width), lower(zero::<T>(), height)),
        bounds.corner(2) == point(upper(zero::<T>(), width), upper(zero::<T>(), height)),
        bounds.corner(3) == point(lower(zero::<T>(), width), upper(zero::<T>(), height)),
    ensures
        frames(bounds, width, height),
{
    lemma_gt(zero::<T>(), width);
    lemma_gt(zero::<T>(), height);
}

/// Over an ordered field, the corners of the rectangle from `(0, 0)` to
/// `(width, height)` lie on its border.
pub proof fn lemma_corners_on_border<T: Scalar>(width: T, height: T)
    requires
        is_ordered::<T>(),
        le(zero::<T>(), width),
        le(zero::<T>(), height),
    ensures
        on_border(point(zero::<T>(), zero::<T>()), width, height),
        on_border(point(width, zero::<T>()), width, height),
        on_border(point(width, height), width, height),
        on_border(point(zero::<T>(), height), width, height),
{
    lemma_le_refl(zero::<T>());
    lemma_le_refl(width);
    lemma_le_refl(height);
}

} // verus!
