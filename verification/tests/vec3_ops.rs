//! Component arithmetic of the fixed-point vector type.

use ray_tracing::{Prng, Vec3, FX_MAX, FX_ONE};

fn v1() -> Vec3 {
    Vec3::new(FX_ONE, 2 * FX_ONE, 3 * FX_ONE)
}

fn v2() -> Vec3 {
    Vec3::new(FX_ONE, 2 * FX_ONE, 3 * FX_ONE)
}

#[test]
fn test_neg_value() {
    assert_eq!(v1().neg(), Vec3::new(-FX_ONE, -2 * FX_ONE, -3 * FX_ONE))
}

#[test]
fn test_add_value() {
    assert_eq!(v1().add(v2()), Vec3::new(2 * FX_ONE, 4 * FX_ONE, 6 * FX_ONE));
}

#[test]
fn test_sub_value() {
    assert_eq!(v1().sub(v2()), Vec3::new(0, 0, 0));
}

#[test]
fn test_mul_val() {
    assert_eq!(v1().scale(3 * FX_ONE), Vec3::new(3 * FX_ONE, 6 * FX_ONE, 9 * FX_ONE));
}

#[test]
fn test_div_val() {
    assert_eq!(v1().div(2 * FX_ONE), Vec3::new(FX_ONE / 2, FX_ONE, 3 * FX_ONE / 2));
}

#[test]
fn test_dot_exact() {
    // (1, 2, 3) . (1, 2, 3) = 14
    assert_eq!(v1().dot(v2()), 14 * FX_ONE);
    assert_eq!(v1().length_squared(), 14 * FX_ONE);
}

#[test]
fn test_cross_axes() {
    let x = Vec3::new(FX_ONE, 0, 0);
    let y = Vec3::new(0, FX_ONE, 0);
    assert_eq!(x.cross(y), Vec3::new(0, 0, FX_ONE));
    assert_eq!(y.cross(x), Vec3::new(0, 0, -FX_ONE));
}

#[test]
fn test_length_and_unit() {
    let v = Vec3::new(0, 3 * FX_ONE, 4 * FX_ONE);
    assert_eq!(v.length(), 5 * FX_ONE);
    assert_eq!(v.unit_vector(), Vec3::new(0, 39321, 52428));
}

#[test]
fn test_length_of_tiny_vector_is_exact() {
    // The length is the integer square root of the exact component sum, so
    // no precision is lost before the root: a tiny axis vector normalizes
    // to an exact unit vector.
    let v = Vec3::new(0, 362, 0);
    assert_eq!(v.length(), 362);
    assert_eq!(v.unit_vector(), Vec3::new(0, FX_ONE, 0));
}

#[test]
fn test_unit_components_never_exceed_one() {
    // No component of a normalized vector leaves [-1, 1] on the grid.
    let samples = [
        Vec3::new(1, 1, 0),
        Vec3::new(0, 362, 0),
        Vec3::new(-77, 12, 900),
        Vec3::new(60000, -1, 2),
        Vec3::new(123456789, 987654, -55555),
    ];
    for v in samples {
        let u = v.unit_vector();
        assert!(-FX_ONE <= u.x && u.x <= FX_ONE);
        assert!(-FX_ONE <= u.y && u.y <= FX_ONE);
        assert!(-FX_ONE <= u.z && u.z <= FX_ONE);
    }
}

#[test]
fn test_random_unit_vector_within_unit_length() {
    let mut rng = Prng::new(6);
    let mut seen_nonzero = false;
    for _ in 0..50 {
        let w = Vec3::random_unit_vector(&mut rng);
        assert!(w.length_squared() <= FX_ONE);
        if !w.near_zero() {
            seen_nonzero = true;
        }
    }
    assert!(seen_nonzero);
}

#[test]
fn test_unit_of_zero_is_zero() {
    // The documented guard for degenerate geometry: normalizing the zero
    // vector yields the zero vector instead of failing.
    assert_eq!(Vec3::new(0, 0, 0).unit_vector(), Vec3::new(0, 0, 0));
}

#[test]
fn test_index_components() {
    let v = v1();
    assert_eq!(v.index(0), FX_ONE);
    assert_eq!(v.index(1), 2 * FX_ONE);
    assert_eq!(v.index(2), 3 * FX_ONE);
}

#[test]
fn test_near_zero() {
    assert!(Vec3::new(0, 0, 0).near_zero());
    assert!(!Vec3::new(1, 0, 0).near_zero());
}

#[test]
fn test_random_within_range() {
    // Exercises the generator wrapper: draws stay inside the half-open
    // range and are not all one constant.
    let mut rng = Prng::new(7);
    let mut seen_distinct = false;
    let mut last = Vec3::new(0, 0, 0);
    for round in 0..50 {
        let v = Vec3::random(&mut rng, -FX_ONE, FX_ONE);
        assert!(-FX_ONE <= v.x && v.x < FX_ONE);
        assert!(-FX_ONE <= v.y && v.y < FX_ONE);
        assert!(-FX_ONE <= v.z && v.z < FX_ONE);
        if round > 0 && v != last {
            seen_distinct = true;
        }
        last = v;
    }
    assert!(seen_distinct);
}

#[test]
fn test_seed_determinism() {
    let mut a = Prng::new(99);
    let mut b = Prng::new(99);
    for _ in 0..20 {
        assert_eq!(Vec3::random(&mut a, 0, FX_ONE), Vec3::random(&mut b, 0, FX_ONE));
    }
}

#[test]
fn test_random_in_unit_sphere_inside() {
    let mut rng = Prng::new(3);
    for _ in 0..50 {
        let p = Vec3::random_in_unit_sphere(&mut rng);
        assert!(p.length_squared() < FX_ONE);
    }
}

#[test]
fn test_random_in_hemisphere_side() {
    let mut rng = Prng::new(4);
    let n = Vec3::new(0, 0, FX_ONE);
    for _ in 0..50 {
        let p = Vec3::random_in_hemisphere(&mut rng, n);
        assert!(p.dot(n) >= 0);
    }
}

#[test]
fn test_random_in_unit_disk_flat() {
    let mut rng = Prng::new(5);
    for _ in 0..50 {
        let p = Vec3::random_in_unit_disk(&mut rng);
        assert_eq!(p.z, 0);
        assert!(p.length_squared() < FX_ONE);
    }
}

#[test]
fn test_saturation_at_bounds() {
    // The arithmetic is total: past the representable range it saturates
    // instead of overflowing.
    let big = Vec3::new(FX_MAX, 0, -FX_MAX);
    assert_eq!(big.add(big), Vec3::new(FX_MAX, 0, -FX_MAX));
    assert_eq!(big.scale(2 * FX_ONE), Vec3::new(FX_MAX, 0, -FX_MAX));
}

#[test]
fn test_div_by_zero_yields_zero() {
    // The documented division policy for degenerate denominators.
    assert_eq!(Vec3::new(FX_ONE, 2 * FX_ONE, 3 * FX_ONE).div(0), Vec3::new(0, 0, 0));
}
