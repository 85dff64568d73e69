use pop::quadratic::{solve, Solution};

#[test]
fn test_quadratic_two_roots() {
    // 2 (x - 1) (x - 2) = 2 (x^2 - 3x + 2) = 2x^2 - 6x + 4 = 0
    assert_eq!(solve(2.0, -6.0, 4.0, &f64::sqrt), Solution::Two(1.0, 2.0));
}

#[test]
fn test_quadratic_one_root() {
    // 2 (x - 1) (x - 1) = 2 (x^2 - 2x + 1) = 2x^2 - 4x + 2 = 0
    assert_eq!(solve(2.0, -4.0, 2.0, &f64::sqrt), Solution::One(1.0));
}

#[test]
fn test_quadratic_no_roots() {
    // x^2 + 1 = 0
    assert_eq!(solve(1.0, 0.0, 1.0, &f64::sqrt), Solution::NoRoots);
}

#[test]
fn quadratic_roots_come_in_ascending_order() {
    // -(x - 1) (x - 3) = -x^2 + 4x - 3: the division by a negative number turns the order round
    assert_eq!(solve(-1.0, 4.0, -3.0, &f64::sqrt), Solution::Two(1.0, 3.0));
    assert_eq!(solve(1.0, -4.0, 3.0, &f64::sqrt), Solution::Two(1.0, 3.0));
}

#[test]
fn quadratic_uses_the_root_it_is_given() {
    // with a "square root" that always answers 2, the roots of x^2 - 9 are -1 and 1
    assert_eq!(solve(1.0, 0.0, -9.0, &|_x: f64| 2.0), Solution::Two(-1.0, 1.0));
}
