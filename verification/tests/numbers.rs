use boids::fixed::{isqrt, mul_fixed, SCALE};
use boids::vec2::{Vec2, UNIT_TOLERANCE};

#[test]
fn isqrt_rounds_down() {
    assert_eq!(isqrt(0), 0);
    assert_eq!(isqrt(1), 1);
    assert_eq!(isqrt(3), 1);
    assert_eq!(isqrt(4), 2);
    assert_eq!(isqrt(999_999_999_999), 999_999);
    assert_eq!(isqrt(1_000_000_000_000), 1_000_000);
    assert_eq!(isqrt(2_000_000_000_000), 1_414_213);
}

#[test]
fn isqrt_of_the_largest_number() {
    assert_eq!(isqrt(u128::MAX), u64::MAX);
}

#[test]
fn mul_fixed_rounds_toward_zero() {
    assert_eq!(mul_fixed(1_500_000, 2_000_000), 3_000_000);
    assert_eq!(mul_fixed(-1_500_000, 1_500_000), -2_250_000);
    assert_eq!(mul_fixed(-1, 500_000), 0);
    assert_eq!(mul_fixed(-1, 1_999_999), -1);
    assert_eq!(mul_fixed(1, 1_999_999), 1);
    assert_eq!(mul_fixed(0, SCALE), 0);
}

#[test]
fn length_and_distance_squared() {
    let a = Vec2::new(3_000_000, -4_000_000);
    assert_eq!(a.length_squared(), 25_000_000_000_000);
    let b = Vec2::new(-1_000_000, -1_000_000);
    assert_eq!(a.distance_squared(&b), 25_000_000_000_000);
    assert_eq!(Vec2::new(i64::MIN, i64::MIN).length_squared(), 1u128 << 127);
}

#[test]
fn within_is_closed_at_the_radius() {
    let a = Vec2::new(0, 0);
    let b = Vec2::new(3_000_000, 4_000_000);
    assert!(a.within(&b, 5_000_000));
    assert!(!a.within(&b, 4_999_999));
    assert!(!a.within(&a, -1));
    assert!(a.within(&a, 0));
}

#[test]
fn normalize_gives_the_exact_unit_vector() {
    assert_eq!(Vec2::new(3_000_000, 4_000_000).normalize(), Some(Vec2::new(600_000, 800_000)));
    assert_eq!(Vec2::new(-3_000_000, 4_000_000).normalize(), Some(Vec2::new(-600_000, 800_000)));
    assert_eq!(Vec2::new(1_000_000, 50_000).normalize(), Some(Vec2::new(998_752, 49_937)));
    assert_eq!(Vec2::new(950_000, 0).normalize(), Some(Vec2::new(1_000_000, 0)));
}

#[test]
fn normalize_magnifies_short_vectors() {
    assert_eq!(Vec2::new(1, 1).normalize(), Some(Vec2::new(707_107, 707_107)));
    assert_eq!(Vec2::new(7, -24).normalize(), Some(Vec2::new(280_000, -960_000)));
    assert_eq!(Vec2::new(1, 0).normalize(), Some(Vec2::new(1_000_000, 0)));
}

#[test]
fn normalize_of_zero_is_none() {
    assert_eq!(Vec2::new(0, 0).normalize(), None);
}

#[test]
fn normalize_of_the_longest_vector_is_unit() {
    let unit = Vec2::new(i64::MIN, i64::MAX).normalize().unwrap();
    assert!(unit.has_unit_length());
    assert!(unit.x < 0 && unit.y > 0);
}

#[test]
fn unit_length_has_a_tolerance() {
    assert!(Vec2::new(SCALE, 0).has_unit_length());
    assert!(Vec2::new(SCALE + UNIT_TOLERANCE, 0).has_unit_length());
    assert!(!Vec2::new(SCALE + UNIT_TOLERANCE + 1, 0).has_unit_length());
    assert!(Vec2::new(0, -(SCALE - UNIT_TOLERANCE)).has_unit_length());
    assert!(!Vec2::new(0, SCALE - UNIT_TOLERANCE - 1).has_unit_length());
    assert!(!Vec2::new(0, 0).has_unit_length());
}

#[test]
fn perp_is_a_quarter_turn() {
    assert_eq!(Vec2::new(1, 2).perp(), Vec2::new(-2, 1));
    assert_eq!(Vec2::new(SCALE, 0).perp(), Vec2::new(0, SCALE));
}
