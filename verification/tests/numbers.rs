use ant_colony::coordinates::{Coordinate, COORDINATE_LIMIT};
use ant_colony::fixed::{
    blend, ceil_sqrt, floor_sqrt, multiply, power, recip, root, scale, FRACTION_BITS, ONE,
};

const EPSILON: f64 = 1e-30;

fn as_float(raw: u64) -> f64 {
    raw as f64 / ONE as f64
}

fn fixed(whole: i64) -> i64 {
    whole * ONE as i64
}

#[test]
fn coordinate_distance() {
    let p1 = Coordinate::new(fixed(-15), fixed(23));
    let p2 = Coordinate::new(fixed(25), fixed(-7));

    assert!((as_float(p1.distance_to(&p2)) - 50.0).abs() < EPSILON);
    assert_eq!(p1.distance_to(&p2), 50 * ONE);
}

#[test]
fn distance_is_symmetric_and_zero_on_itself() {
    let points = [
        Coordinate::new(0, 0),
        Coordinate::new(fixed(3), fixed(-4)),
        Coordinate::new(123_456_789, -987_654_321),
        Coordinate::new(COORDINATE_LIMIT, -COORDINATE_LIMIT),
        Coordinate::new(-COORDINATE_LIMIT, COORDINATE_LIMIT),
    ];
    for a in points.iter() {
        assert_eq!(a.distance_to(a), 0);
        for b in points.iter() {
            assert_eq!(a.distance_to(b), b.distance_to(a));
        }
    }
}

#[test]
fn distance_is_zero_only_between_equal_points() {
    let a = Coordinate::new(7, 7);
    let b = Coordinate::new(7, 8);
    assert_eq!(a.distance_to(&b), 1);
    assert!(a.distance_to(&Coordinate::new(8, 8)) > 0);
    assert_eq!(a.distance_to(&Coordinate::new(7, 7)), 0);
}

#[test]
fn distance_obeys_the_triangle_inequality() {
    let points = [
        Coordinate::new(0, 0),
        Coordinate::new(1, 1),
        Coordinate::new(2, 2),
        Coordinate::new(3, 3),
        Coordinate::new(fixed(1), 0),
        Coordinate::new(0, fixed(1)),
        Coordinate::new(-5, 12),
        Coordinate::new(1_000_000_007, -999_999_937),
    ];
    for a in points.iter() {
        for b in points.iter() {
            for c in points.iter() {
                assert!(
                    a.distance_to(b) as u128 <= a.distance_to(c) as u128 + c.distance_to(b) as u128
                );
            }
        }
    }
}

#[test]
fn distance_rounds_up() {
    let a = Coordinate::new(0, 0);
    let b = Coordinate::new(1, 1);
    assert_eq!(a.distance_to(&b), 2);
    let c = Coordinate::new(fixed(1), fixed(1));
    assert_eq!(a.distance_to(&c), 1_414_213_563);
}

#[test]
fn distance_at_the_limit_fits() {
    let a = Coordinate::new(COORDINATE_LIMIT, COORDINATE_LIMIT);
    let b = Coordinate::new(-COORDINATE_LIMIT, -COORDINATE_LIMIT);
    let d = a.distance_to(&b) as u128;
    let square = 2 * (1u128 << 126);
    assert!(d * d >= square);
    assert!((d - 1) * (d - 1) < square);
}

#[test]
fn square_roots_are_exact() {
    assert_eq!(floor_sqrt(0), 0);
    assert_eq!(floor_sqrt(1), 1);
    assert_eq!(floor_sqrt(15), 3);
    assert_eq!(floor_sqrt(16), 4);
    assert_eq!(floor_sqrt(17), 4);
    assert_eq!(floor_sqrt(u128::MAX), u64::MAX);
    assert_eq!(ceil_sqrt(0), 0);
    assert_eq!(ceil_sqrt(1), 1);
    assert_eq!(ceil_sqrt(15), 4);
    assert_eq!(ceil_sqrt(16), 4);
    assert_eq!(ceil_sqrt(17), 5);
    assert_eq!(ceil_sqrt(u128::MAX), 1u128 << 64);
    assert_eq!(root(4 * ONE), 2 * ONE);
    assert_eq!(root(2 * ONE), 1_414_213_562);
    assert_eq!(root(0), 0);
}

#[test]
fn products_round_down_and_saturate() {
    assert_eq!(multiply(2 * ONE, 3 * ONE), 6 * ONE);
    assert_eq!(multiply(ONE / 2, ONE / 2), ONE / 4);
    assert_eq!(multiply(1, 1), 0);
    assert_eq!(multiply(3, ONE / 2), 1);
    assert_eq!(multiply(u64::MAX, u64::MAX), u64::MAX);
    assert_eq!(scale(u64::MAX, u64::MAX), (u64::MAX as u128 * u64::MAX as u128) / ONE as u128);
    assert_eq!(scale(5 * ONE, ONE / 2), (5 * ONE / 2) as u128);
}

#[test]
fn blend_is_the_weighted_mean() {
    assert_eq!(blend(0, 2 * ONE, ONE / 2), ONE);
    assert_eq!(blend(4 * ONE, 0, ONE / 4), 3 * ONE);
    assert_eq!(blend(7, 9, 0), 7);
    assert_eq!(blend(7, 9, ONE), 9);
    assert_eq!(blend(u64::MAX, u64::MAX, ONE / 3), u64::MAX);
    assert_eq!(blend(u64::MAX, 0, ONE / 2), u64::MAX / 2);
}

#[test]
fn blend_stays_between_its_arguments() {
    let values = [0u64, 1, 17, ONE, 3 * ONE + 5, u64::MAX];
    let weights = [0u64, 1, ONE / 3, ONE / 2, ONE - 1, ONE];
    for old in values {
        for target in values {
            for alpha in weights {
                let mixed = blend(old, target, alpha);
                assert!(old.min(target) <= mixed && mixed <= old.max(target));
            }
        }
    }
}

#[test]
fn reciprocal_of_a_length() {
    assert_eq!(recip(4 * ONE as u128), ONE / 4);
    assert_eq!(recip(ONE as u128), ONE);
    assert_eq!(recip(3 * ONE as u128), 333_333_333);
    assert_eq!(recip(1), ONE * ONE);
    assert_eq!(recip(0), u64::MAX);
    assert_eq!(recip(u128::MAX), 0);
}

#[test]
fn powers_of_whole_exponents() {
    assert_eq!(power(2 * ONE, 0), ONE);
    assert_eq!(power(0, 0), ONE);
    assert_eq!(power(2 * ONE, ONE), 2 * ONE);
    assert_eq!(power(2 * ONE, 2 * ONE), 4 * ONE);
    assert_eq!(power(3 * ONE, 4 * ONE), 81 * ONE);
    assert_eq!(power(ONE / 2, 3 * ONE), ONE / 8);
    assert_eq!(power(0, 5 * ONE), 0);
    assert_eq!(power(10 * ONE, 30 * ONE), u64::MAX);
}

#[test]
fn powers_of_zero_and_one() {
    for base in [0, 1, ONE / 3, ONE, 7 * ONE + 5, u64::MAX] {
        assert_eq!(power(base, 0), ONE);
        assert_eq!(power(base, ONE), base);
    }
}

#[test]
fn powers_of_fractional_exponents() {
    assert_eq!(FRACTION_BITS, 30);
    assert_eq!(power(4 * ONE, ONE / 2), 2 * ONE);
    assert_eq!(power(16 * ONE, ONE / 4), 2 * ONE);
    assert_eq!(power(4 * ONE, ONE + ONE / 2), 8 * ONE);
    assert_eq!(power(0, ONE / 2), 0);
    assert_eq!(power(ONE, 123_456_789), ONE);
    let cube_root = power(8 * ONE, 333_333_333);
    assert!((as_float(cube_root) - 2.0).abs() < 1e-6);
    let observed = power(2 * ONE, 2_449_900_000);
    assert!((as_float(observed) - 2f64.powf(2.4499)).abs() < 1e-6);
}
