//! Intersection behavior: root selection, normal orientation, motion
//! interpolation, and the closest-hit scan.

use ray_tracing::{Hittable, Hittables, Material, MovingSphere, Ray, Sphere, Vec3, FX_ONE};

fn gray() -> Material {
    Material::Lambertian { albedo: Vec3::new(FX_ONE / 2, FX_ONE / 2, FX_ONE / 2) }
}

fn axis_ray() -> Ray {
    Ray { origin: Vec3::new(0, 0, 0), direction: Vec3::new(0, 0, -FX_ONE), time: 0 }
}

#[test]
fn test_sphere_hit_nearer_root_outside() {
    // A ray through the sphere's two surface points at t = 0.5 and t = 1.5
    // must report the nearer parameter, with a unit outward normal.
    let s = Sphere { center: Vec3::new(0, 0, -FX_ONE), radius: FX_ONE / 2, material: gray() };
    let hit = s.hit(&axis_ray(), 0, 10 * FX_ONE).unwrap();
    assert_eq!(hit.t, FX_ONE / 2);
    assert!(hit.front_face);
    assert_eq!(hit.normal, Vec3::new(0, 0, FX_ONE));
    assert_eq!(hit.point, Vec3::new(0, 0, -FX_ONE / 2));
}

#[test]
fn test_sphere_hit_inside_flips_normal() {
    // A ray starting at the center exits through the far surface; the
    // normal is flipped to oppose the ray and front_face is false.
    let s = Sphere { center: Vec3::new(0, 0, -FX_ONE), radius: FX_ONE / 2, material: gray() };
    let ray = Ray { origin: Vec3::new(0, 0, -FX_ONE), direction: Vec3::new(0, 0, -FX_ONE), time: 0 };
    let hit = s.hit(&ray, 0, 10 * FX_ONE).unwrap();
    assert_eq!(hit.t, FX_ONE / 2);
    assert!(!hit.front_face);
    assert_eq!(hit.normal, Vec3::new(0, 0, FX_ONE));
    assert!(hit.normal.dot(ray.direction) <= 0);
}

#[test]
fn test_sphere_miss() {
    let s = Sphere { center: Vec3::new(10 * FX_ONE, 0, -FX_ONE), radius: FX_ONE / 2, material: gray() };
    assert!(s.hit(&axis_ray(), 0, 10 * FX_ONE).is_none());
}

#[test]
fn test_sphere_range_excludes_hit() {
    let s = Sphere { center: Vec3::new(0, 0, -FX_ONE), radius: FX_ONE / 2, material: gray() };
    // Both roots (0.5 and 1.5) lie above the upper bound.
    assert!(s.hit(&axis_ray(), 0, FX_ONE / 4).is_none());
}

#[test]
fn test_moving_sphere_center_interpolates() {
    let m = MovingSphere {
        center0: Vec3::new(0, 0, 0),
        center1: Vec3::new(FX_ONE, 0, 0),
        time0: 0,
        time1: FX_ONE,
        radius: FX_ONE / 2,
        material: gray(),
    };
    assert_eq!(m.center(0), Vec3::new(0, 0, 0));
    assert_eq!(m.center(FX_ONE / 2), Vec3::new(FX_ONE / 2, 0, 0));
    assert_eq!(m.center(FX_ONE), Vec3::new(FX_ONE, 0, 0));
}

#[test]
fn test_moving_sphere_hit_at_time() {
    // At time 1 the sphere has moved onto the ray's axis; at time 0 it is
    // off to the side.
    let m = MovingSphere {
        center0: Vec3::new(10 * FX_ONE, 0, -FX_ONE),
        center1: Vec3::new(0, 0, -FX_ONE),
        time0: 0,
        time1: FX_ONE,
        radius: FX_ONE / 2,
        material: gray(),
    };
    let at_start = Ray { origin: Vec3::new(0, 0, 0), direction: Vec3::new(0, 0, -FX_ONE), time: 0 };
    let at_end = Ray { origin: Vec3::new(0, 0, 0), direction: Vec3::new(0, 0, -FX_ONE), time: FX_ONE };
    assert!(m.hit(&at_start, 0, 10 * FX_ONE).is_none());
    let hit = m.hit(&at_end, 0, 10 * FX_ONE).unwrap();
    assert_eq!(hit.t, FX_ONE / 2);
}

#[test]
fn test_scene_closest_wins() {
    let near = Sphere { center: Vec3::new(0, 0, -2 * FX_ONE), radius: FX_ONE / 2, material: gray() };
    let far = Sphere { center: Vec3::new(0, 0, -4 * FX_ONE), radius: FX_ONE / 2, material: gray() };
    let a = Hittables { hittables: vec![Hittable::Sphere(near), Hittable::Sphere(far)] };
    let b = Hittables { hittables: vec![Hittable::Sphere(far), Hittable::Sphere(near)] };
    let ha = a.hit(&axis_ray(), 0, 100 * FX_ONE).unwrap();
    let hb = b.hit(&axis_ray(), 0, 100 * FX_ONE).unwrap();
    // Both orders report the nearer sphere's surface at t = 1.5.
    assert_eq!(ha.t, 3 * FX_ONE / 2);
    assert_eq!(hb.t, 3 * FX_ONE / 2);
}

#[test]
fn test_scene_hit_repeatable() {
    // Scene.hit is a pure function of the ray and the primitives: two calls
    // with identical inputs agree exactly.
    let s = Sphere { center: Vec3::new(0, 0, -FX_ONE), radius: FX_ONE / 2, material: gray() };
    let world = Hittables { hittables: vec![Hittable::Sphere(s)] };
    let first = world.hit(&axis_ray(), 0, 100 * FX_ONE);
    let second = world.hit(&axis_ray(), 0, 100 * FX_ONE);
    assert_eq!(first, second);
}

#[test]
fn test_empty_scene_no_hit() {
    let world = Hittables { hittables: vec![] };
    assert!(world.hit(&axis_ray(), 0, 100 * FX_ONE).is_none());
}
