//! The camera: derived, immutable viewing geometry that maps normalized
//! image coordinates plus lens and shutter samples to world-space rays.

use vstd::prelude::*;

use crate::fixed::{fx_div, fx_div_s, fx_mul, fx_mul_s, FX_ONE};
use crate::ray::Ray;
use crate::rng::Prng;
use crate::vec3::{
    bounded_s, cross_s, in_unit_disk_s, unit_s, vadd_s, vdiv_s, vscale_s, vsub_s, Vec3,
};

verus! {

pub struct Camera {
    origin: Vec3,
    lower_left_corner: Vec3,
    horizontal: Vec3,
    vertical: Vec3,
    u: Vec3,
    v: Vec3,
    lens_radius: i64,
    time0: i64,
    time1: i64,
}

/// A camera is well formed when its shutter interval is ordered; rays can
/// then draw a time from it.
pub closed spec fn camera_wf(c: Camera) -> bool {
    c.time0 <= c.time1
}

pub closed spec fn camera_time0(c: Camera) -> int {
    c.time0 as int
}

pub closed spec fn camera_time1(c: Camera) -> int {
    c.time1 as int
}

/// The viewing geometry derived from the user parameters: an orthonormal
/// basis aimed from `lookfrom` at `lookat`, a viewport scaled by the
/// tangent of half the vertical field of view, the aspect ratio and the
/// focus distance, and a lens of radius half the aperture.
pub closed spec fn camera_new_s(
    lookfrom: Vec3,
    lookat: Vec3,
    vup: Vec3,
    tan_half_vfov: int,
    aspect_ratio: int,
    aperture: int,
    focus_dist: int,
    time0: int,
    time1: int,
) -> Camera {
    let viewport_height = fx_mul_s(2 * FX_ONE as int, tan_half_vfov);
    let viewport_width = fx_mul_s(aspect_ratio, viewport_height);
    let w = unit_s(vsub_s(lookfrom, lookat));
    let u = unit_s(cross_s(vup, w));
    let v = cross_s(w, u);
    let origin = lookfrom;
    let horizontal = vscale_s(u, fx_mul_s(focus_dist, viewport_width));
    let vertical = vscale_s(v, fx_mul_s(focus_dist, viewport_height));
    let lower_left_corner = vsub_s(
        vsub_s(vsub_s(origin, vdiv_s(horizontal, 2 * FX_ONE as int)), vdiv_s(vertical, 2 * FX_ONE as int)),
        vscale_s(w, focus_dist),
    );
    Camera {
        origin,
        lower_left_corner,
        horizontal,
        vertical,
        u,
        v,
        lens_radius: fx_div_s(aperture, 2 * FX_ONE as int) as i64,
        time0: time0 as i64,
        time1: time1 as i64,
    }
}

/// The ray a camera casts through normalized image coordinates `(s, t)`
/// for a given lens-disk sample `d` and shutter time: the origin is offset
/// within the lens, and the direction aims at the viewport point, so rays
/// of one pixel converge on the focus plane.
pub closed spec fn ray_through_s(c: Camera, s: int, t: int, d: Vec3, time: int) -> Ray {
    let rd = vscale_s(d, c.lens_radius as int);
    let offset = vadd_s(vscale_s(c.u, rd.x as int), vscale_s(c.v, rd.y as int));
    Ray {
        origin: vadd_s(c.origin, offset),
        direction: vsub_s(
            vsub_s(
                vadd_s(vadd_s(c.lower_left_corner, vscale_s(c.horizontal, s)), vscale_s(c.vertical, t)),
                c.origin,
            ),
            offset,
        ),
        time: time as i64,
    }
}

impl Camera {
    /// Build the camera geometry once from the user parameters. The
    /// vertical field of view enters as the tangent of its half-angle, in
    /// fixed point, since the library computes no trigonometry itself.
    pub fn new(
        lookfrom: Vec3,
        lookat: Vec3,
        vup: Vec3,
        tan_half_vfov: i64,
        aspect_ratio: i64,
        aperture: i64,
        focus_dist: i64,
        time0: i64,
        time1: i64,
    ) -> (c: Camera)
        requires
            time0 <= time1,
        ensures
            c == camera_new_s(
                lookfrom,
                lookat,
                vup,
                tan_half_vfov as int,
                aspect_ratio as int,
                aperture as int,
                focus_dist as int,
                time0 as int,
                time1 as int,
            ),
            camera_wf(c),
    {
        let viewport_height: i64 = fx_mul(2 * FX_ONE, tan_half_vfov);
        let viewport_width: i64 = fx_mul(aspect_ratio, viewport_height);

        let w = lookfrom.sub(lookat).unit_vector();
        let u = vup.cross(w).unit_vector();
        let v = w.cross(u);

        // Position of eye/camera.
        let origin = lookfrom;
        let horizontal = u.scale(fx_mul(focus_dist, viewport_width));
        let vertical = v.scale(fx_mul(focus_dist, viewport_height));
        let lower_left_corner = origin.sub(horizontal.div(2 * FX_ONE)).sub(
            vertical.div(2 * FX_ONE),
        ).sub(w.scale(focus_dist));

        let lens_radius: i64 = fx_div(aperture, 2 * FX_ONE);

        Camera {
            origin,
            lower_left_corner,
            horizontal,
            vertical,
            u,
            v,
            lens_radius,
            time0,
            time1,
        }
    }

    /// Cast the ray for image coordinates `(s, t)`: a fresh lens-disk draw
    /// offsets the origin, and a degenerate shutter interval pins the time
    /// at zero while a real one draws from it uniformly.
    pub fn get_ray(&self, s: i64, t: i64, rng: &mut Prng) -> (r: Ray)
        requires
            camera_wf(*self),
        ensures
            exists|d: Vec3|
                in_unit_disk_s(d) && r == ray_through_s(*self, s as int, t as int, d, r.time as int),
            camera_time0(*self) == camera_time1(*self) ==> r.time == 0,
            camera_time0(*self) != camera_time1(*self) ==> camera_time0(*self) <= r.time as int
                && (r.time as int) < camera_time1(*self),
            bounded_s(r.direction),
    {
        let d = Vec3::random_in_unit_disk(rng);
        let rd = d.scale(self.lens_radius);
        let offset = self.u.scale(rd.x).add(self.v.scale(rd.y));

        let origin = self.origin.add(offset);
        let direction = self.lower_left_corner.add(self.horizontal.scale(s)).add(
            self.vertical.scale(t),
        ).sub(self.origin).sub(offset);
        let time: i64 = if self.time0 == self.time1 {
            0
        } else {
            rng.next_in(self.time0, self.time1)
        };
        let r = Ray { origin, direction, time };
        proof {
            assert(in_unit_disk_s(d) && r == ray_through_s(
                *self,
                s as int,
                t as int,
                d,
                r.time as int,
            ));
        }
        r
    }
}

} // verus!
