use polar_shapes::{
    normalized_angle_unsigned_excl, normalized_angle_unsigned_incl, ARC_EPSILON, TAU_FX,
};

#[test]
fn excl_stays_in_half_open_turn() {
    let samples: Vec<i64> = vec![
        0,
        1,
        -1,
        TAU_FX - 1,
        TAU_FX,
        TAU_FX + 1,
        -TAU_FX,
        -TAU_FX - 7,
        5 * TAU_FX + 123,
        -9 * TAU_FX - 456,
        1_000_000_000_000,
        -1_000_000_000_000,
        0x4000_0000_0000_0000,
        -0x4000_0000_0000_0000,
    ];
    for &x in &samples {
        let r = normalized_angle_unsigned_excl(x);
        assert!(0 <= r && r < TAU_FX, "out of range for {}: {}", x, r);
    }
}

#[test]
fn excl_is_periodic_in_full_turns() {
    let samples: Vec<i64> = vec![0, 1, -1, 123456, -987654, TAU_FX / 3, -TAU_FX / 5, 7 * TAU_FX];
    for &x in &samples {
        assert_eq!(
            normalized_angle_unsigned_excl(x + TAU_FX),
            normalized_angle_unsigned_excl(x)
        );
    }
}

#[test]
fn excl_wraps_negative_angles_up() {
    assert_eq!(normalized_angle_unsigned_excl(-1), TAU_FX - 1);
    assert_eq!(normalized_angle_unsigned_excl(-TAU_FX), 0);
    assert_eq!(normalized_angle_unsigned_excl(0), 0);
    assert_eq!(normalized_angle_unsigned_excl(TAU_FX), 0);
}

#[test]
fn incl_preserves_exact_full_turn() {
    assert_eq!(normalized_angle_unsigned_incl(TAU_FX), TAU_FX);
    assert_eq!(normalized_angle_unsigned_incl(0), 0);
    assert_eq!(normalized_angle_unsigned_incl(TAU_FX / 2), TAU_FX / 2);
}

#[test]
fn incl_wraps_just_past_full_turn_to_near_zero() {
    let r = normalized_angle_unsigned_incl(TAU_FX + ARC_EPSILON);
    assert_eq!(r, ARC_EPSILON);
    assert_eq!(normalized_angle_unsigned_incl(-1), TAU_FX - 1);
    assert_eq!(normalized_angle_unsigned_incl(2 * TAU_FX + 5), 5);
}
