use pop::matrix::Matrix3x3;
use pop::transform::TransformBuilder;

fn assert_near(expected: f32, actual: f32) {
    assert!((expected - actual).abs() <= 0.001, "{} is not near {}", actual, expected);
}

#[test]
fn identity() {
    let builder = TransformBuilder::<f32>::new();
    let t = builder.build();
    assert_eq!((2.0, 3.0), t.transform_values(2.0, 3.0));
}

#[test]
fn scale() {
    let mut builder = TransformBuilder::<f32>::new();
    builder.push_scale(3.0, 4.0);
    let t = builder.build();
    assert_eq!((6.0, 12.0), t.transform_values(2.0, 3.0));
}

#[test]
fn translation() {
    let mut builder = TransformBuilder::<f32>::new();
    builder.push_translate(5.0, 7.0);
    let t = builder.build();
    assert_eq!((7.0, 10.0), t.transform_values(2.0, 3.0));
}

#[test]
fn rotation() {
    let mut builder = TransformBuilder::<f32>::new();
    let angle = std::f32::consts::PI / 2.0;
    builder.push_rotate(angle.cos(), angle.sin());
    let t = builder.build();

    let (x, y) = t.transform_values(0.0, 1.0);
    assert_near(1.0, x);
    assert_near(0.0, y);

    let (x, y) = t.transform_values(1.0, 0.0);
    assert_near(0.0, x);
    assert_near(-1.0, y);

    let (x, y) = t.transform_values(0.0, -1.0);
    assert_near(-1.0, x);
    assert_near(0.0, y);

    let (x, y) = t.transform_values(-1.0, 0.0);
    assert_near(0.0, x);
    assert_near(1.0, y);
}

#[test]
fn build_transform() {
    let mut builder = TransformBuilder::<f32>::new();
    builder.push_translate(1.0, 2.0);
    builder.push_scale(3.0, 7.0);
    let angle = std::f32::consts::PI / 2.0;
    builder.push_rotate(angle.cos(), angle.sin());
    let t = builder.build();

    let (x, y) = t.transform_values(5.0, 2.0);

    assert_near(28.0, x);
    assert_near(-18.0, y);
}

#[test]
fn clear_transform() {
    let mut builder = TransformBuilder::<f32>::new();
    builder.push_translate(1.0, 2.0);
    builder.clear();

    let t = builder.build();

    assert_eq!((1.0, 2.0), t.transform_values(1.0, 2.0));
}

#[test]
fn push_returns_the_position_on_the_stack() {
    let mut builder = TransformBuilder::<f64>::new();
    assert_eq!(builder.push_scale(2.0, 2.0), 0);
    assert_eq!(builder.push_translate(1.0, 0.0), 1);
    assert_eq!(
        builder.push_matrix(Matrix3x3::from_values(1.0, 0.0, 0.0, 0.0, 1.0, 0.0, 0.0, 0.0, 1.0)),
        2
    );
    // scaled first, moved second
    assert_eq!(builder.build().transform_values(1.0, 1.0), (3.0, 2.0));
}
