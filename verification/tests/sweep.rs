use pop::geom::ParabolaIntersection;
use pop::vector::{Vec2, Vector2};
use pop::voronoi::{border_step, circle_event_priority, site_is_left_of_breakpoint, BorderStep};

#[test]
fn circle_event_is_due_below_the_sweep_line_inside_the_rectangle() {
    // centre at y = 5, radius 2, focus of the arc at y = 4, sweep line at y = 6, height 10
    assert_eq!(circle_event_priority(5.0, 2.0, 4.0, 6.0, 10.0), Some(7.0));
    // the lowest point of the circle lies on the sweep line
    assert_eq!(circle_event_priority(5.0, 2.0, 4.0, 7.0, 10.0), Some(7.0));
    // it lies above the sweep line
    assert_eq!(circle_event_priority(5.0, 2.0, 4.0, 7.5, 10.0), None);
    // the centre lies on the lower side of the rectangle, and below it
    assert_eq!(circle_event_priority(5.0, 2.0, 4.0, 6.0, 5.0), Some(7.0));
    assert_eq!(circle_event_priority(5.0, 2.0, 4.0, 6.0, 4.5), None);
    // the centre lies level with the focus, and above it
    assert_eq!(circle_event_priority(5.0, 2.0, 5.0, 6.0, 10.0), Some(7.0));
    assert_eq!(circle_event_priority(5.0, 2.0, 5.5, 6.0, 10.0), None);
}

#[test]
fn the_breakpoint_is_one_of_the_two_points() {
    let first = Vec2::from_values(2.0, 9.0);
    let second = Vec2::from_values(8.0, 9.0);
    let hits = ParabolaIntersection::Two(first, second);
    // the left focus is the lower one: the breakpoint is the first point
    assert_eq!(site_is_left_of_breakpoint(&hits, 1.0, 5.0, 1.0), Some(true));
    assert_eq!(site_is_left_of_breakpoint(&hits, 1.0, 5.0, 2.0), Some(false));
    assert_eq!(site_is_left_of_breakpoint(&hits, 1.0, 5.0, 5.0), Some(false));
    // the left focus is the higher one, or level: the breakpoint is the second point
    assert_eq!(site_is_left_of_breakpoint(&hits, 5.0, 1.0, 5.0), Some(true));
    assert_eq!(site_is_left_of_breakpoint(&hits, 5.0, 1.0, 8.0), Some(false));
    assert_eq!(site_is_left_of_breakpoint(&hits, 5.0, 5.0, 5.0), Some(true));
    assert_eq!(site_is_left_of_breakpoint(&ParabolaIntersection::One(first), 1.0, 5.0, 1.0), None);
    assert_eq!(site_is_left_of_breakpoint(&ParabolaIntersection::<f64>::NoPoint, 1.0, 5.0, 1.0), None);
    assert_eq!(site_is_left_of_breakpoint(&ParabolaIntersection::<f64>::Infinite, 1.0, 5.0, 1.0), None);
}

#[test]
fn the_walk_goes_clockwise_from_corner_to_corner() {
    let (w, h) = (100.0, 50.0);
    // on the top side
    assert_eq!(border_step(30.0, 0.0, 10.0, 50.0, w, h), BorderStep::Corner(100.0, 0.0));
    assert_eq!(border_step(30.0, 0.0, 70.0, 0.0, w, h), BorderStep::Arrived);
    assert_eq!(border_step(30.0, 0.0, 30.0, 0.0, w, h), BorderStep::Arrived);
    assert_eq!(border_step(30.0, 0.0, 20.0, 0.0, w, h), BorderStep::Corner(100.0, 0.0));
    // in the top left corner the walk stands on the top side
    assert_eq!(border_step(0.0, 0.0, 100.0, 0.0, w, h), BorderStep::Arrived);
    assert_eq!(border_step(0.0, 0.0, 0.0, 20.0, w, h), BorderStep::Corner(100.0, 0.0));
    // on the right side, the top right corner included
    assert_eq!(border_step(100.0, 0.0, 100.0, 0.0, w, h), BorderStep::Arrived);
    assert_eq!(border_step(100.0, 20.0, 100.0, 40.0, w, h), BorderStep::Arrived);
    assert_eq!(border_step(100.0, 20.0, 100.0, 10.0, w, h), BorderStep::Corner(100.0, 50.0));
    assert_eq!(border_step(100.0, 20.0, 60.0, 50.0, w, h), BorderStep::Corner(100.0, 50.0));
    // on the bottom side, the bottom right corner included
    assert_eq!(border_step(100.0, 50.0, 60.0, 50.0, w, h), BorderStep::Arrived);
    assert_eq!(border_step(60.0, 50.0, 80.0, 50.0, w, h), BorderStep::Corner(0.0, 50.0));
    assert_eq!(border_step(60.0, 50.0, 0.0, 10.0, w, h), BorderStep::Corner(0.0, 50.0));
    // on the left side, the bottom left corner included
    assert_eq!(border_step(0.0, 50.0, 0.0, 10.0, w, h), BorderStep::Arrived);
    assert_eq!(border_step(0.0, 20.0, 0.0, 30.0, w, h), BorderStep::Corner(0.0, 0.0));
    assert_eq!(border_step(0.0, 20.0, 40.0, 0.0, w, h), BorderStep::Corner(0.0, 0.0));
    // off the rectangle
    assert_eq!(border_step(30.0, 20.0, 40.0, 0.0, w, h), BorderStep::Astray);
    assert_eq!(border_step(f64::NAN, 0.0, 40.0, 0.0, w, h), BorderStep::Corner(100.0, 0.0));
    assert_eq!(border_step(30.0, f64::NAN, 40.0, 0.0, w, h), BorderStep::Astray);
}
