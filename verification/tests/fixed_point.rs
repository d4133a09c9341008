use fireworks::fixed::{ceil_sqrt, narrow, saturating_difference, saturating_sum, scale, RESOLUTION};
use fireworks::vector::Vector;

#[test]
fn resolution_is_one_million_steps() {
    assert_eq!(RESOLUTION, 1_000_000);
}

#[test]
fn sums_are_exact_inside_the_range() {
    assert_eq!(saturating_sum(1_200_000, -4_000), 1_196_000);
    assert_eq!(saturating_sum(-50_000_000, 1_200_000), -48_800_000);
    assert_eq!(saturating_difference(5, 7), -2);
    assert_eq!(saturating_difference(-5, -7), 2);
}

#[test]
fn sums_stop_at_the_ends_of_the_range() {
    assert_eq!(saturating_sum(i64::MAX, 1), i64::MAX);
    assert_eq!(saturating_sum(i64::MAX, i64::MAX), i64::MAX);
    assert_eq!(saturating_sum(i64::MIN, -1), i64::MIN);
    assert_eq!(saturating_difference(i64::MIN, 1), i64::MIN);
    assert_eq!(saturating_difference(i64::MAX, -1), i64::MAX);
    assert_eq!(saturating_difference(0, i64::MIN), i64::MAX);
}

#[test]
fn narrowing_keeps_what_fits() {
    assert_eq!(narrow(0), 0);
    assert_eq!(narrow(-17), -17);
    assert_eq!(narrow(i64::MAX as i128), i64::MAX);
    assert_eq!(narrow(i64::MAX as i128 + 1), i64::MAX);
    assert_eq!(narrow(i64::MIN as i128 - 1), i64::MIN);
    assert_eq!(narrow(i128::MAX), i64::MAX);
    assert_eq!(narrow(i128::MIN), i64::MIN);
}

#[test]
fn scaling_multiplies_fixed_point_numbers() {
    assert_eq!(scale(1_200_000, 980_000), 1_176_000);
    assert_eq!(scale(2_000_000, 3_000_000), 6_000_000);
    assert_eq!(scale(-2_000_000, 3_000_000), -6_000_000);
    assert_eq!(scale(123_456, 0), 0);
    assert_eq!(scale(123_456, RESOLUTION), 123_456);
}

#[test]
fn scaling_rounds_toward_zero() {
    assert_eq!(scale(3, 500_000), 1);
    assert_eq!(scale(-3, 500_000), -1);
    assert_eq!(scale(1, 980_000), 0);
    assert_eq!(scale(-1, 980_000), 0);
    assert_eq!(scale(49, 980_000), 48);
    assert_eq!(scale(-49, 980_000), -48);
}

#[test]
fn scaling_stops_at_the_ends_of_the_range() {
    assert_eq!(scale(i64::MAX, 2_000_000), i64::MAX);
    assert_eq!(scale(i64::MIN, 2_000_000), i64::MIN);
    assert_eq!(scale(i64::MIN, -2_000_000), i64::MAX);
    assert_eq!(scale(i64::MIN, i64::MIN), i64::MAX);
    assert_eq!(scale(i64::MAX, i64::MIN), i64::MIN);
}

#[test]
fn square_roots_round_up() {
    assert_eq!(ceil_sqrt(0), 0);
    assert_eq!(ceil_sqrt(1), 1);
    assert_eq!(ceil_sqrt(2), 2);
    assert_eq!(ceil_sqrt(4), 2);
    assert_eq!(ceil_sqrt(5), 3);
    assert_eq!(ceil_sqrt(9), 3);
    assert_eq!(ceil_sqrt(10), 4);
    assert_eq!(ceil_sqrt(1_000_000_000_000_000_000_000_000), 1_000_000_000_000);
    assert_eq!(ceil_sqrt(1_000_000_000_000_000_000_000_001), 1_000_000_000_001);
    assert_eq!(ceil_sqrt(u128::MAX), 1u128 << 64);
}

#[test]
fn vectors_add_subtract_and_scale_by_component() {
    let a = Vector { x: 1_000_000, y: -2_000_000 };
    let b = Vector { x: 250_000, y: 4_000_000 };
    assert_eq!(a + b, Vector { x: 1_250_000, y: 2_000_000 });
    assert_eq!(a - b, Vector { x: 750_000, y: -6_000_000 });
    assert_eq!(a * 500_000, Vector { x: 500_000, y: -1_000_000 });
    assert_eq!(a * 0, Vector::zero());
    assert_eq!(Vector::zero(), Vector { x: 0, y: 0 });
}

#[test]
fn vector_components_saturate_on_their_own() {
    let a = Vector { x: i64::MAX, y: 5 };
    let b = Vector { x: 1, y: 6 };
    assert_eq!(a + b, Vector { x: i64::MAX, y: 11 });
    let c = Vector { x: i64::MIN, y: 5 };
    assert_eq!(c - b, Vector { x: i64::MIN, y: -1 });
}

#[test]
fn samples_are_normalised_to_length_one() {
    assert_eq!(Vector::unit_from_sample(1, 0), Vector { x: 1_000_000, y: 0 });
    assert_eq!(Vector::unit_from_sample(0, -7), Vector { x: 0, y: -1_000_000 });
    assert_eq!(Vector::unit_from_sample(600_000, 800_000), Vector { x: 600_000, y: 800_000 });
    assert_eq!(Vector::unit_from_sample(-3, 4), Vector { x: -600_000, y: 800_000 });
    assert_eq!(Vector::unit_from_sample(-1, -1), Vector { x: -707_106, y: -707_106 });
    assert_eq!(
        Vector::unit_from_sample(1_000_000, 1_000_000),
        Vector { x: 707_106, y: 707_106 }
    );
    assert_eq!(
        Vector::unit_from_sample(-1_000_000, 1_000_000),
        Vector { x: -707_106, y: 707_106 }
    );
}

#[test]
fn unit_vectors_are_within_one_step_of_length_one() {
    let samples: Vec<(i64, i64)> = vec![
        (1, 0),
        (1, 1),
        (-1, 2),
        (999_999, -1),
        (-1_000_000, -1_000_000),
        (123_456, -654_321),
        (7, 1_000_000),
        (-31_337, 42),
    ];
    for (x, y) in samples {
        let u = Vector::unit_from_sample(x, y);
        let length_sq = (u.x as i128) * (u.x as i128) + (u.y as i128) * (u.y as i128);
        assert!(length_sq <= 1_000_000_000_000, "{:?} is too long", u);
        let out_x = (u.x as i128).abs() + 1;
        let out_y = (u.y as i128).abs() + 1;
        assert!(out_x * out_x + out_y * out_y > 999_999 * 999_999, "{:?} is too short", u);
        assert_eq!(u.x.signum(), x.signum());
        assert_eq!(u.y.signum(), y.signum());
    }
}
