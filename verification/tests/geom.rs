use pop::geom::{
    calc_parabola_from_focus, circle_through_points, distance_between_points,
    intersect_line_with_line, intersect_parabolas_from_foci, intersect_ray_with_bounding_box,
    intersect_ray_with_ray, intersect_ray_with_segment, is_clockwise, vectors_are_dependent,
    BoundingBox, IntersectionCalculator, ParabolaIntersection,
};
use pop::vector::{Vec2, Vector2};

fn v(x: f64, y: f64) -> Vec2<f64> {
    Vec2::from_values(x, y)
}

#[test]
fn test_intersect_parallel_lines() {
    let p1 = v(1.0, 1.0);
    let p2 = v(-3.0, 4.0);
    let d1 = v(1.0, 2.0);
    let d2 = v(-2.0, -4.0);

    assert_eq!(intersect_line_with_line(&p1, &d1, &p2, &d2), None);
}

#[test]
fn test_intersect_equal_lines() {
    let p1 = v(1.0, 1.0);
    let d1 = v(-3.0, 4.0);

    assert_eq!(intersect_line_with_line(&p1, &d1, &p1, &d1), None);
}

#[test]
fn test_intersect_lines() {
    let p1 = v(1.0, 1.0);
    let d1 = v(1.0, 1.0);

    let p2 = v(-3.0, 4.0);
    let d2 = v(1.0, 0.0);

    assert_eq!(intersect_line_with_line(&p1, &d1, &p2, &d2), Some(v(4.0, 4.0)));
}

#[test]
fn test_intersect_parallel_rays() {
    let p1 = v(1.0, 1.0);
    let p2 = v(-3.0, 4.0);
    let d1 = v(1.0, 2.0);
    let d2 = v(-2.0, -4.0);

    assert_eq!(intersect_ray_with_ray(&p1, &d1, &p2, &d2), None);
}

#[test]
fn test_intersect_equal_rays() {
    let p1 = v(1.0, 1.0);
    let d1 = v(-3.0, 4.0);

    assert_eq!(intersect_ray_with_ray(&p1, &d1, &p1, &d1), None);
}

#[test]
fn test_intersect_rays() {
    let p1 = v(1.0, 1.0);
    let d1 = v(1.0, 1.0);

    let p2 = v(-3.0, 4.0);
    let d2 = v(1.0, 0.0);

    assert_eq!(intersect_ray_with_ray(&p1, &d1, &p2, &d2), Some(v(4.0, 4.0)));
}

#[test]
fn test_non_intersecting_rays() {
    let p1 = v(1.0, 1.0);
    let d1 = v(1.0, 1.0);

    let p2 = v(-3.0, 4.0);
    let d2 = v(-1.0, 0.0);

    assert_eq!(intersect_ray_with_ray(&p1, &d1, &p2, &d2), None);
}

#[test]
fn test_intersect_parabolas() {
    let f1 = v(100.0, 130.0);
    let f2 = v(500.0, 340.0);
    let line_y = 600.0;

    match intersect_parabolas_from_foci(&f1, &f2, line_y, &f64::sqrt) {
        ParabolaIntersection::Two(first, second) => {
            let d11 = distance_between_points(&first, &f1, &f64::sqrt);
            let d12 = distance_between_points(&first, &f2, &f64::sqrt);
            let d13 = (first.get_y() - line_y).abs();
            let d21 = distance_between_points(&second, &f1, &f64::sqrt);
            let d22 = distance_between_points(&second, &f2, &f64::sqrt);
            let d23 = (second.get_y() - line_y).abs();

            assert!((d11 - d12).abs() <= 0.000_1);
            assert!((d21 - d22).abs() <= 0.000_1);
            assert!((d11 - d13).abs() <= 0.000_1);
            assert!((d21 - d23).abs() <= 0.000_1);
            assert!(first.get_x() < second.get_x());
        }
        _ => {
            panic!("expected two intersections");
        }
    }
}

#[test]
fn test_circle_through_colinear_points() {
    let p1 = v(1.0, 1.0);
    let p2 = v(2.0, 2.0);
    let p3 = v(44.0, 44.0);

    assert_eq!(circle_through_points(&p1, &p2, &p3, &f64::sqrt), None);
}

#[test]
fn test_circle_through_points() {
    let p1 = v(1.0, 1.0);
    let p2 = v(100.0, 400.0);
    let p3 = v(400.0, -200.0);

    let (focus, radius) =
        circle_through_points(&p1, &p2, &p3, &f64::sqrt).expect("expected circle and radius");

    let d1 = distance_between_points(&p1, &focus, &f64::sqrt);
    let d2 = distance_between_points(&p2, &focus, &f64::sqrt);
    let d3 = distance_between_points(&p3, &focus, &f64::sqrt);

    assert!((d1 - radius).abs() <= 0.000_1);
    assert!((d2 - radius).abs() <= 0.000_1);
    assert!((d3 - radius).abs() <= 0.000_1);
}

#[test]
fn test_intersect_ray_with_segment() {
    let p1 = v(1.0, 1.0);
    let d1 = v(1.0, 1.0);

    let start = v(4.0, -100.0);
    let end = v(4.0, 50.0);

    assert_eq!(intersect_ray_with_segment(&p1, &d1, &start, &end), Some(v(4.0, 4.0)));
}

#[test]
fn test_intersect_ray_with_segment_edge() {
    let p1 = v(1.0, 1.0);
    let d1 = v(1.0, 1.0);

    let start = v(4.0, -100.0);
    let end = v(4.0, 4.0);

    assert_eq!(intersect_ray_with_segment(&p1, &d1, &start, &end), Some(v(4.0, 4.0)));
}

#[test]
fn test_not_intersect_ray_with_segment() {
    let p1 = v(1.0, 1.0);
    let d1 = v(1.0, 1.0);

    let start = v(4.0, -100.0);
    let end = v(4.0, 3.0);

    assert_eq!(intersect_ray_with_segment(&p1, &d1, &start, &end), None);
}

#[test]
fn test_clockwise_vector() {
    let p1 = v(-1.0, 1.0);
    let p2 = v(0.5, 0.1);

    assert_eq!(is_clockwise(&p1, &p2), true);
    assert_eq!(is_clockwise(&p2, &p1), false);
}

#[test]
fn bounding_box_orders_its_coordinates() {
    let bounds = BoundingBox::new(10.0, 2.0, 7.0, 30.0);
    assert_eq!(bounds.get_corner(0), v(2.0, 7.0));
    assert_eq!(bounds.get_corner(1), v(10.0, 7.0));
    assert_eq!(bounds.get_corner(2), v(10.0, 30.0));
    assert_eq!(bounds.get_corner(3), v(2.0, 30.0));
    let bounds = BoundingBox::new(0.0, 1000.0, 0.0, 500.0);
    assert_eq!(bounds.get_corner(0), v(0.0, 0.0));
    assert_eq!(bounds.get_corner(2), v(1000.0, 500.0));
}

#[test]
fn ray_meets_the_bounding_box_on_the_first_side_in_order() {
    let bounds = BoundingBox::new(0.0, 1000.0, 0.0, 1000.0);
    let p = v(500.0, 500.0);
    assert_eq!(intersect_ray_with_bounding_box(&p, &v(1.0, 0.0), &bounds), Some(v(1000.0, 500.0)));
    assert_eq!(intersect_ray_with_bounding_box(&p, &v(0.0, -1.0), &bounds), Some(v(500.0, 0.0)));
    assert_eq!(intersect_ray_with_bounding_box(&p, &v(0.0, 2.0), &bounds), Some(v(500.0, 1000.0)));
    assert_eq!(intersect_ray_with_bounding_box(&p, &v(-4.0, 0.0), &bounds), Some(v(0.0, 500.0)));
    // towards a corner: the top side and the right side both hold it, the top side is first
    assert_eq!(intersect_ray_with_bounding_box(&p, &v(1.0, -1.0), &bounds), Some(v(1000.0, 0.0)));
    // from outside, through the box: the top side is looked at before the bottom side
    let below = v(500.0, 2000.0);
    assert_eq!(intersect_ray_with_bounding_box(&below, &v(0.0, -1.0), &bounds), Some(v(500.0, 0.0)));
    // away from the box
    assert_eq!(intersect_ray_with_bounding_box(&below, &v(0.0, 1.0), &bounds), None);
    let mut calculator = IntersectionCalculator::new();
    assert_eq!(calculator.ray_with_bounding_box(&p, &v(-1.0, 1.0), &bounds), Some(v(0.0, 1000.0)));
    assert_eq!(calculator.ray_with_bounding_box(&p, &v(1.0, 0.0), &bounds), Some(v(1000.0, 500.0)));
}

#[test]
fn calculator_solves_the_parameter_equations() {
    let mut calculator = IntersectionCalculator::new();
    // (1, 1) + k (1, 1) = (-3, 4) + j (1, 0): k = 3, j = 7
    calculator.set_parameter_equations(&v(1.0, 1.0), &v(1.0, 1.0), &v(-3.0, 4.0), &v(1.0, 0.0));
    assert_eq!(calculator.solve_for_parameters(), Some((3.0, 7.0)));
    calculator.set_parameter_equations(&v(1.0, 1.0), &v(1.0, 2.0), &v(-3.0, 4.0), &v(-2.0, -4.0));
    assert_eq!(calculator.solve_for_parameters(), None);
    assert_eq!(
        IntersectionCalculator::substitute_parameter(&v(1.0, 2.0), &v(10.0, -20.0), 0.5),
        v(6.0, -8.0)
    );
    assert_eq!(calculator.line_with_line(&v(0.0, 0.0), &v(1.0, 0.0), &v(5.0, 5.0), &v(0.0, 1.0)), Some(v(5.0, 0.0)));
    // the lines meet behind the start of the second ray
    assert_eq!(calculator.ray_with_ray(&v(0.0, 0.0), &v(1.0, 0.0), &v(5.0, 5.0), &v(0.0, 1.0)), None);
    assert_eq!(calculator.ray_with_ray(&v(0.0, 0.0), &v(1.0, 0.0), &v(5.0, 5.0), &v(0.0, -1.0)), Some(v(5.0, 0.0)));
    // a ray that starts on the other ray
    assert_eq!(calculator.ray_with_ray(&v(5.0, 0.0), &v(1.0, 0.0), &v(5.0, 5.0), &v(0.0, -1.0)), Some(v(5.0, 0.0)));
    // the start of a segment belongs to it
    assert_eq!(calculator.ray_with_segment(&v(0.0, 0.0), &v(1.0, 0.0), &v(5.0, 0.0), &v(5.0, 9.0)), Some(v(5.0, 0.0)));
    assert_eq!(calculator.ray_with_segment(&v(0.0, 0.0), &v(1.0, 0.0), &v(5.0, 1.0), &v(5.0, 9.0)), None);
    assert_eq!(calculator.ray_with_segment(&v(0.0, 0.0), &v(-1.0, 0.0), &v(5.0, -1.0), &v(5.0, 9.0)), None);
}

#[test]
fn circle_through_three_points_has_its_centre_on_the_bisectors() {
    let mut calculator = IntersectionCalculator::new();
    let circle = calculator.circle_through_points(&v(0.0, 0.0), &v(4.0, 0.0), &v(0.0, 6.0), &f64::sqrt);
    assert_eq!(circle, Some((v(2.0, 3.0), 13.0f64.sqrt())));
    assert_eq!(circle_through_points(&v(1.0, 0.0), &v(0.0, 1.0), &v(-1.0, 0.0), &f64::sqrt), Some((v(0.0, 0.0), 1.0)));
    // twice the same point
    assert_eq!(circle_through_points(&v(1.0, 0.0), &v(0.0, 1.0), &v(1.0, 0.0), &f64::sqrt), None);
    // the radius is what the root function makes of the squared distance
    assert_eq!(
        circle_through_points(&v(1.0, 0.0), &v(0.0, 1.0), &v(-1.0, 0.0), &|d: f64| d + 41.0),
        Some((v(0.0, 0.0), 42.0))
    );
    assert_eq!(distance_between_points(&v(1.0, 1.0), &v(4.0, 5.0), &f64::sqrt), 5.0);
    assert_eq!(distance_between_points(&v(1.0, 1.0), &v(4.0, 5.0), &|d: f64| d), 25.0);
}

#[test]
fn parabola_from_focus_and_directrix() {
    // the points as far from (0, 2) as from y = 0: y = x^2 / 4 + 1
    assert_eq!(calc_parabola_from_focus(&v(0.0, 2.0), 0.0), (0.25, 0.0, 1.0));
    // the points as far from (3, 5) as from y = 1: y = (x - 3)^2 / 8 + 3
    assert_eq!(calc_parabola_from_focus(&v(3.0, 5.0), 1.0), (0.125, -0.75, 4.125));
}

#[test]
fn parabolas_meet_in_two_points_in_ascending_order() {
    // y = x^2 / 4 + 1 and y = x^2 / 16 + 4 meet where x^2 = 16
    assert_eq!(
        intersect_parabolas_from_foci(&v(0.0, 2.0), &v(0.0, 8.0), 0.0, &f64::sqrt),
        ParabolaIntersection::Two(v(-4.0, 5.0), v(4.0, 5.0))
    );
    assert_eq!(
        intersect_parabolas_from_foci(&v(0.0, 8.0), &v(0.0, 2.0), 0.0, &f64::sqrt),
        ParabolaIntersection::Two(v(-4.0, 5.0), v(4.0, 5.0))
    );
    assert_eq!(
        intersect_parabolas_from_foci(&v(0.0, 2.0), &v(0.0, 2.0), 0.0, &f64::sqrt),
        ParabolaIntersection::Infinite
    );
    // a focus on the directrix has no parabola: what comes out is no pair of points
    assert!(!matches!(
        intersect_parabolas_from_foci(&v(0.0, 2.0), &v(5.0, 0.0), 0.0, &f64::sqrt),
        ParabolaIntersection::Two(_, _)
    ));
}

#[test]
fn dependent_vectors_have_no_cross_product() {
    assert!(vectors_are_dependent(&v(1.0, 2.0), &v(-2.0, -4.0)));
    assert!(vectors_are_dependent(&v(0.0, 0.0), &v(3.0, 4.0)));
    assert!(!vectors_are_dependent(&v(1.0, 2.0), &v(2.0, 1.0)));
    assert!(!is_clockwise(&v(1.0, 0.0), &v(2.0, 0.0)));
    assert!(is_clockwise(&v(1.0, 0.0), &v(0.0, -1.0)));
    assert!(!is_clockwise(&v(1.0, 0.0), &v(0.0, 1.0)));
}
