use polar_shapes::{
    Orientation, ShapeError, WidgetShape, Winding, WrapMode, EIGHTH_TURN, EVAL_LIMIT, HALF_TURN,
    ONE, QUARTER_TURN, TAU_FX,
};

fn as_real(v: i64) -> f64 {
    v as f64 / ONE as f64
}

#[test]
fn circle_radius_is_exactly_one_everywhere() {
    let shape = WidgetShape::Circle;
    for &theta in &[0, 1, -1, EIGHTH_TURN, QUARTER_TURN, HALF_TURN, TAU_FX, -TAU_FX, 123456789] {
        assert_eq!(shape.eval(theta), ONE);
    }
}

#[test]
fn square_radius_on_axes_and_diagonal() {
    let shape = WidgetShape::Square;
    assert_eq!(shape.eval(0), ONE);
    assert_eq!(shape.eval(QUARTER_TURN), ONE);
    assert_eq!(shape.eval(HALF_TURN), ONE);
    let diag = as_real(shape.eval(EIGHTH_TURN));
    assert!((diag - 2.0f64.sqrt()).abs() < 1e-4, "diagonal {}", diag);
}

#[test]
fn polygon_with_four_sides_matches_rotated_square() {
    let shape = WidgetShape::Polygon(4);
    let sqrt2 = 2.0f64.sqrt();
    let r0 = as_real(shape.eval(0));
    let r45 = as_real(shape.eval(EIGHTH_TURN));
    let r90 = as_real(shape.eval(QUARTER_TURN));
    assert!((r0 - sqrt2).abs() < 1e-4, "corner at angle zero: {}", r0);
    assert!((r45 - 1.0).abs() < 1e-4, "flat side at a quarter of pi: {}", r45);
    assert!((r90 - sqrt2).abs() < 1e-4, "corner at half pi: {}", r90);
}

#[test]
fn squircle_small_exponent_approaches_diamond() {
    let shape = WidgetShape::Squircle(ONE);
    let r = as_real(shape.eval(EIGHTH_TURN));
    let diamond = 1.0 / (2.0 * (std::f64::consts::FRAC_PI_4).cos());
    assert!((r - diamond).abs() < 1e-3, "diamond diagonal: {}", r);
    assert!((as_real(shape.eval(0)) - 1.0).abs() < 1e-3);
}

#[test]
fn squircle_exponent_two_is_a_circle() {
    let shape = WidgetShape::Squircle(2 * ONE);
    for &theta in &[0, EIGHTH_TURN / 2, EIGHTH_TURN, QUARTER_TURN] {
        let r = as_real(shape.eval(theta));
        assert!((r - 1.0).abs() < 1e-3, "at {}: {}", theta, r);
    }
}

#[test]
fn squircle_growing_exponent_approaches_square() {
    let square = as_real(WidgetShape::Square.eval(EIGHTH_TURN));
    let k4 = as_real(WidgetShape::Squircle(4 * ONE).eval(EIGHTH_TURN));
    let k16 = as_real(WidgetShape::Squircle(16 * ONE).eval(EIGHTH_TURN));
    let k32 = as_real(WidgetShape::Squircle(32 * ONE).eval(EIGHTH_TURN));
    assert!(k4 < k16 && k16 < k32 && k32 < square);
    assert!((square - k32) < (square - k4));
    assert!((as_real(WidgetShape::Squircle(16 * ONE).eval(0)) - 1.0).abs() < 1e-3);
}

#[test]
fn super_polygon_with_exponent_two_is_round() {
    let shape = WidgetShape::SuperPolygon(4, 2 * ONE);
    let r = as_real(shape.eval(TAU_FX / 6));
    assert!((r - 1.0).abs() < 1e-3, "{}", r);
}

#[test]
fn mix_is_exact_at_both_endpoints() {
    for &theta in &[0, 1234567, EIGHTH_TURN, -QUARTER_TURN, HALF_TURN + 17] {
        let a = WidgetShape::Square;
        let b = WidgetShape::Polygon(5);
        let mix0 = WidgetShape::Mix(Box::new(WidgetShape::Square), Box::new(WidgetShape::Polygon(5)), 0);
        let mix1 = WidgetShape::Mix(Box::new(WidgetShape::Square), Box::new(WidgetShape::Polygon(5)), ONE);
        assert_eq!(mix0.eval(theta), a.eval(theta));
        assert_eq!(mix1.eval(theta), b.eval(theta));
    }
}

#[test]
fn mix_halfway_blends_the_radii() {
    let mix = WidgetShape::Mix(
        Box::new(WidgetShape::Circle),
        Box::new(WidgetShape::Square),
        ONE / 2,
    );
    let r = as_real(mix.eval(EIGHTH_TURN));
    let expected = 0.5 * 1.0 + 0.5 * 2.0f64.sqrt();
    assert!((r - expected).abs() < 1e-3, "{}", r);
}

#[test]
fn rotation_shifts_the_angular_argument_exactly() {
    for &(theta, off) in &[(0i64, EIGHTH_TURN), (QUARTER_TURN, -HALF_TURN), (777777, 123456)] {
        let rotated = WidgetShape::Rotated(Box::new(WidgetShape::Polygon(3)), off);
        assert_eq!(rotated.eval(theta), WidgetShape::Polygon(3).eval(theta - off));
    }
}

#[test]
fn custom_table_indexes_by_normalized_angle() {
    let tbl: Vec<i64> = vec![ONE, 2 * ONE, 3 * ONE, ONE / 2];
    let shape = WidgetShape::Custom(tbl);
    assert_eq!(shape.eval(0), ONE);
    assert_eq!(shape.eval(QUARTER_TURN), 2 * ONE);
    assert_eq!(shape.eval(HALF_TURN), 3 * ONE);
    assert_eq!(shape.eval(QUARTER_TURN * 3), ONE / 2);
    assert_eq!(shape.eval(TAU_FX), ONE);
    assert_eq!(shape.eval(-QUARTER_TURN), shape.eval(QUARTER_TURN * 3));
}

#[test]
fn validate_accepts_well_formed_descriptors() {
    assert_eq!(WidgetShape::Circle.validate(), Ok(()));
    assert_eq!(WidgetShape::Square.validate(), Ok(()));
    assert_eq!(WidgetShape::Squircle(3 * ONE / 2).validate(), Ok(()));
    assert_eq!(WidgetShape::Polygon(3).validate(), Ok(()));
    assert_eq!(WidgetShape::SuperPolygon(6, ONE).validate(), Ok(()));
    let nested = WidgetShape::Mix(
        Box::new(WidgetShape::Rotated(Box::new(WidgetShape::Circle), EIGHTH_TURN)),
        Box::new(WidgetShape::Custom(vec![ONE, ONE / 2])),
        ONE / 4,
    );
    assert_eq!(nested.validate(), Ok(()));
}

#[test]
fn validate_rejects_bad_parameters() {
    assert_eq!(
        WidgetShape::Squircle(0).validate(),
        Err(ShapeError::InvalidParameter)
    );
    assert_eq!(
        WidgetShape::Squircle(-ONE).validate(),
        Err(ShapeError::InvalidParameter)
    );
    assert_eq!(
        WidgetShape::Polygon(2).validate(),
        Err(ShapeError::InvalidParameter)
    );
    assert_eq!(
        WidgetShape::SuperPolygon(4, 3 * ONE).validate(),
        Err(ShapeError::InvalidParameter)
    );
    assert_eq!(
        WidgetShape::SuperPolygon(2, ONE).validate(),
        Err(ShapeError::InvalidParameter)
    );
    assert_eq!(
        WidgetShape::Custom(vec![]).validate(),
        Err(ShapeError::InvalidParameter)
    );
    assert_eq!(
        WidgetShape::Custom(vec![ONE, -1]).validate(),
        Err(ShapeError::InvalidParameter)
    );
    let bad_inside = WidgetShape::Rotated(Box::new(WidgetShape::Polygon(1)), 0);
    assert_eq!(bad_inside.validate(), Err(ShapeError::InvalidParameter));
}

#[test]
fn radii_stay_non_negative_and_bounded() {
    let shapes: Vec<WidgetShape> = vec![
        WidgetShape::Circle,
        WidgetShape::Square,
        WidgetShape::Squircle(ONE),
        WidgetShape::Polygon(7),
        WidgetShape::SuperPolygon(5, ONE / 2),
        WidgetShape::Rotated(Box::new(WidgetShape::Polygon(3)), -EIGHTH_TURN),
        WidgetShape::Mix(
            Box::new(WidgetShape::Square),
            Box::new(WidgetShape::Circle),
            ONE / 3,
        ),
        WidgetShape::Custom(vec![0, ONE, 3 * ONE]),
    ];
    for shape in &shapes {
        assert_eq!(shape.validate(), Ok(()));
        let mut theta: i64 = -TAU_FX;
        while theta <= TAU_FX {
            let r = shape.eval(theta);
            assert!(0 <= r && r <= EVAL_LIMIT, "radius {} at {}", r, theta);
            theta += TAU_FX / 97;
        }
    }
}

#[test]
fn extrapolated_mix_can_leave_the_non_negative_range() {
    let mix = WidgetShape::Mix(
        Box::new(WidgetShape::Square),
        Box::new(WidgetShape::Circle),
        4 * ONE,
    );
    assert_eq!(mix.validate(), Ok(()));
    let r = mix.eval(EIGHTH_TURN);
    assert!(r < 0, "weight 4 extrapolates past the circle: {}", r);
}

#[test]
fn deeply_nested_rotations_accumulate() {
    let step = EIGHTH_TURN / 8;
    let mut shape = WidgetShape::Polygon(4);
    for _ in 0..8 {
        shape = WidgetShape::Rotated(Box::new(shape), step);
    }
    assert_eq!(shape.validate(), Ok(()));
    assert_eq!(shape.eval(8 * step), WidgetShape::Polygon(4).eval(0));
}

#[test]
fn winding_signs() {
    assert_eq!(Winding::Clockwise.to_sign(), 1);
    assert_eq!(Winding::Counterclockwise.to_sign(), -1);
}

#[test]
fn orientation_angles() {
    assert_eq!(Orientation::Right.angle(), 0);
    assert_eq!(Orientation::Bottom.angle(), QUARTER_TURN);
    assert_eq!(Orientation::Left.angle(), HALF_TURN);
    assert_eq!(Orientation::Top.angle(), 3 * QUARTER_TURN);
    assert_eq!(Orientation::Custom(-12345).angle(), -12345);
}

#[test]
fn wrap_modes_are_distinct() {
    assert_ne!(WrapMode::Unwrapped, WrapMode::Signed);
    assert_ne!(WrapMode::Signed, WrapMode::Unsigned);
    assert_ne!(WrapMode::Unwrapped, WrapMode::Unsigned);
}
