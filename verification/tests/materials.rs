//! Scattering behavior of the three material kinds, and the tone mapping.

use ray_tracing::color::get_color;
use ray_tracing::{Hit, Material, Prng, Ray, Vec3, FX_ONE};

fn surface_hit(material: Material, normal: Vec3, front_face: bool) -> Hit {
    Hit { point: Vec3::new(0, 0, 0), normal, t: FX_ONE, front_face, material }
}

fn incoming() -> Ray {
    Ray { origin: Vec3::new(0, 0, FX_ONE), direction: Vec3::new(0, 0, -FX_ONE), time: 17 }
}

#[test]
fn test_lambertian_always_scatters_in_hemisphere() {
    let mat = Material::Lambertian { albedo: Vec3::new(FX_ONE / 2, FX_ONE / 2, FX_ONE / 2) };
    let normal = Vec3::new(0, 0, FX_ONE);
    let hit = surface_hit(mat, normal, true);
    let mut rng = Prng::new(11);
    for _ in 0..50 {
        let scattered = mat.scatter(&incoming(), &hit, &mut rng).unwrap();
        assert_eq!(scattered.origin, hit.point);
        assert_eq!(scattered.time, 17);
        assert!(scattered.direction.dot(normal) >= 0);
    }
}

#[test]
fn test_metal_mirror_reflection() {
    let mat = Material::Metal { albedo: Vec3::new(FX_ONE, FX_ONE, FX_ONE), fuzz: 0 };
    let normal = Vec3::new(0, 0, FX_ONE);
    let hit = surface_hit(mat, normal, true);
    let mut rng = Prng::new(12);
    let scattered = mat.scatter(&incoming(), &hit, &mut rng).unwrap();
    // A head-on ray reflects straight back; fuzz zero adds nothing.
    assert_eq!(scattered.direction, Vec3::new(0, 0, FX_ONE));
    assert_eq!(scattered.origin, hit.point);
    assert_eq!(scattered.time, 17);
}

#[test]
fn test_metal_absorbs_into_surface() {
    // Against an inward normal the reflection points into the surface and
    // the ray is absorbed.
    let mat = Material::Metal { albedo: Vec3::new(FX_ONE, FX_ONE, FX_ONE), fuzz: 0 };
    let normal = Vec3::new(0, 0, -FX_ONE);
    let hit = surface_hit(mat, normal, false);
    let mut rng = Prng::new(13);
    assert!(mat.scatter(&incoming(), &hit, &mut rng).is_none());
}

#[test]
fn test_dielectric_unity_index_passes_straight_through() {
    // With a refractive index of one nothing ever totally internally
    // reflects; a head-on ray refracts exactly undeviated.
    let mat = Material::Dielectric { refractive_index: FX_ONE };
    let normal = Vec3::new(0, 0, FX_ONE);
    let hit = surface_hit(mat, normal, true);
    let mut rng = Prng::new(14);
    for _ in 0..20 {
        let scattered = mat.scatter(&incoming(), &hit, &mut rng).unwrap();
        assert_eq!(scattered.direction, Vec3::new(0, 0, -FX_ONE));
    }
}

#[test]
fn test_dielectric_total_internal_reflection() {
    // Exiting glass at 45 degrees exceeds the critical angle of index 1.5:
    // the ray must reflect, deterministically, without consuming a draw.
    let mat = Material::Dielectric { refractive_index: 3 * FX_ONE / 2 };
    let normal = Vec3::new(0, 0, FX_ONE);
    let hit = surface_hit(mat, normal, false);
    let grazing = Ray {
        origin: Vec3::new(0, 0, 0),
        direction: Vec3::new(FX_ONE, 0, -FX_ONE),
        time: 0,
    };
    let mut rng = Prng::new(15);
    let scattered = mat.scatter(&grazing, &hit, &mut rng).unwrap();
    assert_eq!(scattered.direction, Vec3::new(46341, 0, 46341));
}

#[test]
fn test_attenuate_albedo_and_glass() {
    let color = Vec3::new(FX_ONE, FX_ONE, FX_ONE);
    let diffuse = Material::Lambertian { albedo: Vec3::new(FX_ONE / 2, FX_ONE / 4, 0) };
    assert_eq!(diffuse.attenuate(color), Vec3::new(FX_ONE / 2, FX_ONE / 4, 0));
    let metal = Material::Metal { albedo: Vec3::new(FX_ONE / 2, FX_ONE / 2, FX_ONE / 2), fuzz: 0 };
    assert_eq!(metal.attenuate(color), Vec3::new(FX_ONE / 2, FX_ONE / 2, FX_ONE / 2));
    let glass = Material::Dielectric { refractive_index: 3 * FX_ONE / 2 };
    assert_eq!(glass.attenuate(Vec3::new(123, 456, 789)), Vec3::new(123, 456, 789));
}

#[test]
fn test_get_color_gamma_and_clamp() {
    // One sample of (1.0, 0.25, 0.0): square-root tone curve gives
    // (1.0, 0.5, 0.0), clamped below one, scaled into [0, 255].
    let sum = Vec3::new(FX_ONE, FX_ONE / 4, 0);
    assert_eq!(get_color(sum, 1), (255, 128, 0));
}

#[test]
fn test_get_color_averages_samples() {
    // Four samples summing to (4.0, 1.0, 0.0) average to (1.0, 0.25, 0.0).
    let sum = Vec3::new(4 * FX_ONE, FX_ONE, 0);
    assert_eq!(get_color(sum, 4), (255, 128, 0));
}

#[test]
fn test_get_color_clamps_negative_channel() {
    // A defective (negative) channel clamps to zero instead of wrapping.
    let sum = Vec3::new(-FX_ONE, 0, FX_ONE / 4);
    assert_eq!(get_color(sum, 1), (0, 0, 128));
}
