//! End-to-end behavior of the integrator, the camera and the sampling loop.

use ray_tracing::{
    ray_color, render, Camera, Hittable, Hittables, ImageConfig, Material, Prng, Ray, Sphere,
    Vec3, FX_ONE,
};

fn straight_camera(aperture: i64, time0: i64, time1: i64) -> Camera {
    Camera::new(
        Vec3::new(0, 0, 0),
        Vec3::new(0, 0, -FX_ONE),
        Vec3::new(0, FX_ONE, 0),
        FX_ONE,  // tan of half of a 90-degree vertical field of view
        FX_ONE,  // square aspect ratio
        aperture,
        FX_ONE,
        time0,
        time1,
    )
}

#[test]
fn test_ray_color_depth_zero_is_black() {
    // An exhausted bounce budget contributes exact black, whatever the ray
    // and whatever the scene.
    let world = Hittables {
        hittables: vec![
            Hittable::Sphere(
                Sphere {
                    center: Vec3::new(0, 0, -FX_ONE),
                    radius: FX_ONE / 2,
                    material: Material::Lambertian {
                        albedo: Vec3::new(FX_ONE / 2, FX_ONE / 2, FX_ONE / 2),
                    },
                },
            ),
        ],
    };
    let mut rng = Prng::new(1);
    let ray = Ray { origin: Vec3::new(0, 0, 0), direction: Vec3::new(0, 0, -FX_ONE), time: 0 };
    assert_eq!(ray_color(ray, &world, &mut rng, 0), Vec3::new(0, 0, 0));
    assert_eq!(ray_color(ray, &world, &mut rng, -3), Vec3::new(0, 0, 0));
}

#[test]
fn test_ray_color_miss_is_background() {
    // A ray that hits nothing returns exactly the sky gradient of its own
    // direction, which Ray::color computes.
    let world = Hittables { hittables: vec![] };
    let mut rng = Prng::new(2);
    let rays = [
        Ray { origin: Vec3::new(0, 0, 0), direction: Vec3::new(0, FX_ONE, -FX_ONE), time: 0 },
        Ray { origin: Vec3::new(0, 0, 0), direction: Vec3::new(0, -FX_ONE, -FX_ONE), time: 0 },
        Ray { origin: Vec3::new(0, 0, 0), direction: Vec3::new(0, 0, -FX_ONE), time: 0 },
    ];
    for ray in rays {
        assert_eq!(ray_color(ray, &world, &mut rng, 8), ray.color());
    }
}

#[test]
fn test_background_stays_on_segment() {
    // Even a direction tiny enough to be badly quantized yields a
    // background on the white-to-blue segment: blue saturated, green
    // between blue and red, red at least one half.
    let rays = [
        Ray { origin: Vec3::new(0, 0, 0), direction: Vec3::new(0, 362, 0), time: 0 },
        Ray { origin: Vec3::new(0, 0, 0), direction: Vec3::new(1, 1, 0), time: 0 },
        Ray { origin: Vec3::new(0, 0, 0), direction: Vec3::new(0, -5, 3), time: 0 },
    ];
    for ray in rays {
        let c = ray.color();
        assert_eq!(c.z, FX_ONE);
        assert!(FX_ONE / 2 <= c.x && c.x <= c.y && c.y <= FX_ONE);
    }
    // Straight up is pure sky blue.
    let up = Ray { origin: Vec3::new(0, 0, 0), direction: Vec3::new(0, 362, 0), time: 0 };
    assert_eq!(up.color(), Vec3::new(FX_ONE / 2, 45875, FX_ONE));
}

#[test]
fn test_background_gradient_blend() {
    // Looking straight ahead the unit direction has y = 0, so the blend
    // parameter is exactly one half: the mean of white and sky blue.
    let ray = Ray { origin: Vec3::new(0, 0, 0), direction: Vec3::new(0, 0, -FX_ONE), time: 0 };
    let halfway = ray.color();
    assert_eq!(halfway, Vec3::new(49152, 55705, FX_ONE));
}

fn two_sphere_scene() -> Hittables {
    let gray = Material::Lambertian { albedo: Vec3::new(FX_ONE / 2, FX_ONE / 2, FX_ONE / 2) };
    Hittables {
        hittables: vec![
            Hittable::Sphere(
                Sphere { center: Vec3::new(0, 0, -FX_ONE), radius: FX_ONE / 2, material: gray },
            ),
            Hittable::Sphere(
                Sphere {
                    center: Vec3::new(0, -100 * FX_ONE - FX_ONE / 2, -FX_ONE),
                    radius: 100 * FX_ONE,
                    material: gray,
                },
            ),
        ],
    }
}

fn small_config(world: Hittables) -> ImageConfig {
    ImageConfig {
        aspect_ratio: FX_ONE,
        image_width: 24,
        image_height: 24,
        samples_per_pixel: 4,
        max_depth: 8,
        world,
        camera: straight_camera(0, 0, 0),
    }
}

#[test]
fn test_render_deterministic_for_seed() {
    // The golden-image property: a render is a pure function of the seed,
    // so re-running with the same seed reproduces every byte.
    let mut rng1 = Prng::new(42);
    let first = render(small_config(two_sphere_scene()), &mut rng1);
    let mut rng2 = Prng::new(42);
    let second = render(small_config(two_sphere_scene()), &mut rng2);
    assert_eq!(first.len(), 24 * 24);
    assert_eq!(first, second);

    // A different seed jitters differently somewhere in the image.
    let mut rng3 = Prng::new(43);
    let third = render(small_config(two_sphere_scene()), &mut rng3);
    assert_ne!(first, third);
}

#[test]
fn test_render_sphere_darkens_image() {
    // The Lambertian sphere must show up: the center of the image differs
    // from the empty-scene background render.
    let mut rng1 = Prng::new(42);
    let with_sphere = render(small_config(two_sphere_scene()), &mut rng1);
    let mut rng2 = Prng::new(42);
    let empty = render(small_config(Hittables { hittables: vec![] }), &mut rng2);
    let mid = 12 * 24 + 12;
    assert_ne!(with_sphere[mid], empty[mid]);
}

#[test]
fn test_empty_scene_renders_vertical_gradient() {
    // Background only: every pixel keeps a saturated blue channel, and the
    // bottom of the image is whiter (redder) than the top.
    let mut rng = Prng::new(7);
    let pixels = render(small_config(Hittables { hittables: vec![] }), &mut rng);
    assert_eq!(pixels.len(), 24 * 24);
    for &(_r, _g, b) in &pixels {
        assert_eq!(b, 255);
    }
    let top_red = pixels[12].0;
    let bottom_red = pixels[23 * 24 + 12].0;
    assert!(bottom_red > top_red);
}

#[test]
fn test_depth_of_field_jitters_origin_not_focus() {
    // With a positive aperture two samples of one pixel start from
    // different lens points, yet both directions pass through the same
    // focus-plane point: advancing either ray by one focus distance lands
    // on the identical target.
    let camera = straight_camera(2 * FX_ONE, 0, 0);
    let mut rng = Prng::new(21);
    let r1 = camera.get_ray(FX_ONE / 2, FX_ONE / 2, &mut rng);
    let r2 = camera.get_ray(FX_ONE / 2, FX_ONE / 2, &mut rng);
    assert_ne!(r1.origin, r2.origin);
    assert_eq!(r1.at(FX_ONE), r2.at(FX_ONE));
}

#[test]
fn test_zero_aperture_fixes_origin() {
    let camera = straight_camera(0, 0, 0);
    let mut rng = Prng::new(22);
    let r1 = camera.get_ray(FX_ONE / 2, FX_ONE / 2, &mut rng);
    let r2 = camera.get_ray(FX_ONE / 2, FX_ONE / 2, &mut rng);
    assert_eq!(r1.origin, r2.origin);
    assert_eq!(r1.origin, Vec3::new(0, 0, 0));
}

#[test]
fn test_shutter_interval_times() {
    // A degenerate shutter pins every ray at time zero; a real interval
    // draws times inside it.
    let still = straight_camera(0, 5 * FX_ONE, 5 * FX_ONE);
    let mut rng = Prng::new(23);
    assert_eq!(still.get_ray(0, 0, &mut rng).time, 0);

    let open = straight_camera(0, FX_ONE, 2 * FX_ONE);
    for _ in 0..20 {
        let t = open.get_ray(0, 0, &mut rng).time;
        assert!(FX_ONE <= t && t < 2 * FX_ONE);
    }
}
