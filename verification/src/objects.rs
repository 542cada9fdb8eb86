//! The geometry and its hit protocol: spheres, time-moving spheres, and the
//! ordered scene aggregate that keeps the closest hit.

use vstd::prelude::*;

use crate::fixed::{
    fx_add, fx_add_s, fx_div, fx_div_s, fx_mul, fx_mul_s, fx_neg, fx_neg_s, fx_sqrt, fx_sqrt_s,
    fx_sub, fx_sub_s, lemma_fx_div_mono, lemma_fx_sqrt_nonneg,
};
use crate::material::Material;
use crate::ray::{at_s, Ray};
use crate::vec3::{
    bounded_s, dot_s, len_sq_s, lemma_dot_neg_right, vdiv_s, vneg_s, vsub_s, Vec3,
};

verus! {

/// The record of one ray-primitive intersection. The normal is oriented
/// against the incoming ray; `front_face` remembers whether the ray arrived
/// from outside the surface. The material is the hit primitive's.
#[derive(Clone, Copy, Debug, PartialEq, Eq, Structural)]
pub struct Hit {
    pub point: Vec3,
    pub normal: Vec3,
    pub t: i64,
    pub front_face: bool,
    pub material: Material,
}

#[derive(Clone, Copy, Debug, PartialEq, Eq, Structural)]
pub struct Sphere {
    pub center: Vec3,
    pub radius: i64,
    pub material: Material,
}

/// A sphere whose center moves linearly from `center0` at `time0` to
/// `center1` at `time1`; a ray samples it at the ray's own time.
#[derive(Clone, Copy, Debug, PartialEq, Eq, Structural)]
pub struct MovingSphere {
    pub center0: Vec3,
    pub center1: Vec3,
    pub time0: i64,
    pub time1: i64,
    pub radius: i64,
    pub material: Material,
}

/// The closed set of primitives a scene can hold.
#[derive(Clone, Copy, Debug, PartialEq, Eq, Structural)]
pub enum Hittable {
    Sphere(Sphere),
    MovingSphere(MovingSphere),
}

/// An ordered collection of primitives; the scene.
pub struct Hittables {
    pub hittables: Vec<Hittable>,
}

/// Quadratic coefficient `a = |D|^2` of the sphere intersection equation.
pub open spec fn sphere_a_s(r: Ray) -> int {
    dot_s(r.direction, r.direction)
}

/// Half the linear coefficient, `(O - C) . D`.
pub open spec fn sphere_half_b_s(center: Vec3, r: Ray) -> int {
    dot_s(vsub_s(r.origin, center), r.direction)
}

/// Constant coefficient `|O - C|^2 - radius^2`.
pub open spec fn sphere_c_s(center: Vec3, radius: int, r: Ray) -> int {
    fx_sub_s(len_sq_s(vsub_s(r.origin, center)), fx_mul_s(radius, radius))
}

/// The discriminant `half_b^2 - a c`; negative means no intersection.
pub open spec fn sphere_disc_s(center: Vec3, radius: int, r: Ray) -> int {
    fx_sub_s(
        fx_mul_s(sphere_half_b_s(center, r), sphere_half_b_s(center, r)),
        fx_mul_s(sphere_a_s(r), sphere_c_s(center, radius, r)),
    )
}

/// The nearer quadratic root `(-half_b - sqrt(disc)) / a`.
pub open spec fn sphere_near_root_s(center: Vec3, radius: int, r: Ray) -> int {
    fx_div_s(
        fx_sub_s(fx_neg_s(sphere_half_b_s(center, r)), fx_sqrt_s(sphere_disc_s(center, radius, r))),
        sphere_a_s(r),
    )
}

/// The farther quadratic root `(-half_b + sqrt(disc)) / a`.
pub open spec fn sphere_far_root_s(center: Vec3, radius: int, r: Ray) -> int {
    fx_div_s(
        fx_add_s(fx_neg_s(sphere_half_b_s(center, r)), fx_sqrt_s(sphere_disc_s(center, radius, r))),
        sphere_a_s(r),
    )
}

/// The outward-facing normal at the point the ray reaches at `root`.
pub open spec fn sphere_outward_s(center: Vec3, radius: int, r: Ray, root: int) -> Vec3 {
    vdiv_s(vsub_s(at_s(r, root), center), radius)
}

/// The hit record for a sphere intersection at parameter `root`: the normal
/// is flipped to oppose the ray whenever the ray arrives from inside.
pub open spec fn sphere_record_s(
    center: Vec3,
    radius: int,
    material: Material,
    r: Ray,
    root: int,
) -> Hit {
    let outward = sphere_outward_s(center, radius, r, root);
    let front_face = dot_s(r.direction, outward) < 0;
    Hit {
        point: at_s(r, root),
        normal: if front_face {
            outward
        } else {
            vneg_s(outward)
        },
        t: root as i64,
        front_face,
        material,
    }
}

/// The full intersection test of a sphere of the given center and radius:
/// no hit when the discriminant is negative; otherwise the nearer root when
/// it lies within `[t_min, t_max]`, else the farther root, else no hit.
pub open spec fn sphere_hit_s(
    center: Vec3,
    radius: int,
    material: Material,
    r: Ray,
    t_min: int,
    t_max: int,
) -> Option<Hit> {
    if sphere_disc_s(center, radius, r) < 0 {
        None
    } else {
        let near = sphere_near_root_s(center, radius, r);
        let far = sphere_far_root_s(center, radius, r);
        let root = if near < t_min || t_max < near {
            far
        } else {
            near
        };
        if root < t_min || t_max < root {
            None
        } else {
            Some(sphere_record_s(center, radius, material, r, root))
        }
    }
}

/// The center of a moving sphere at a given time, by linear interpolation.
pub open spec fn moving_center_s(m: MovingSphere, time: int) -> Vec3 {
    vadd_center(m, fx_div_s(fx_sub_s(time, m.time0 as int), fx_sub_s(m.time1 as int, m.time0 as int)))
}

/// Helper: `center0 + k * (center1 - center0)`.
pub open spec fn vadd_center(m: MovingSphere, k: int) -> Vec3 {
    crate::vec3::vadd_s(m.center0, crate::vec3::vscale_s(vsub_s(m.center1, m.center0), k))
}

/// The material a primitive carries.
pub open spec fn hittable_material_s(h: Hittable) -> Material {
    match h {
        Hittable::Sphere(s) => s.material,
        Hittable::MovingSphere(m) => m.material,
    }
}

/// A reported hit carries the material of the primitive that reported it.
pub proof fn lemma_hittable_hit_material(h: Hittable, r: Ray, t_min: int, t_max: int)
    ensures
        hittable_hit_s(h, r, t_min, t_max) matches Some(rec) ==> rec.material
            == hittable_material_s(h),
{
}

/// What one primitive reports for a ray within a parameter range.
pub open spec fn hittable_hit_s(h: Hittable, r: Ray, t_min: int, t_max: int) -> Option<Hit> {
    match h {
        Hittable::Sphere(s) => sphere_hit_s(s.center, s.radius as int, s.material, r, t_min, t_max),
        Hittable::MovingSphere(m) => sphere_hit_s(
            moving_center_s(m, r.time as int),
            m.radius as int,
            m.material,
            r,
            t_min,
            t_max,
        ),
    }
}

/// The scene scan from a suffix of the primitive list, carrying the best
/// hit so far and the tightened upper bound of the search range.
pub open spec fn scene_hit_from_s(
    objs: Seq<Hittable>,
    r: Ray,
    t_min: int,
    closest: int,
    best: Option<Hit>,
) -> Option<Hit>
    decreases objs.len(),
{
    if objs.len() == 0 {
        best
    } else {
        match hittable_hit_s(objs[0], r, t_min, closest) {
            Some(h) => scene_hit_from_s(objs.skip(1), r, t_min, h.t as int, Some(h)),
            None => scene_hit_from_s(objs.skip(1), r, t_min, closest, best),
        }
    }
}

/// The closest hit across the whole scene: every primitive is tested, in
/// order, and each accepted hit tightens the search upper bound.
pub open spec fn scene_hit_s(objs: Seq<Hittable>, r: Ray, t_min: int, t_max: int) -> Option<Hit> {
    scene_hit_from_s(objs, r, t_min, t_max, None)
}

/// Shared intersection body for the two sphere kinds.
fn sphere_hit_exec(
    center: Vec3,
    radius: i64,
    material: &Material,
    ray: &Ray,
    t_min: i64,
    t_max: i64,
) -> (res: Option<Hit>)
    requires
        bounded_s(ray.direction),
    ensures
        res == sphere_hit_s(center, radius as int, *material, *ray, t_min as int, t_max as int),
{
    let oc = ray.origin.sub(center);
    let a: i64 = ray.direction.length_squared();
    let half_b: i64 = oc.dot(ray.direction);
    let c: i64 = fx_sub(oc.length_squared(), fx_mul(radius, radius));

    let discriminant: i64 = fx_sub(fx_mul(half_b, half_b), fx_mul(a, c));
    if discriminant < 0 {
        return None;
    }
    let sqrtd: i64 = fx_sqrt(discriminant);

    // Prefer the nearer root; fall back to the farther root when the nearer
    // one misses the acceptable range.
    let mut root: i64 = fx_div(fx_sub(fx_neg(half_b), sqrtd), a);
    if root < t_min || t_max < root {
        root = fx_div(fx_add(fx_neg(half_b), sqrtd), a);
        if root < t_min || t_max < root {
            return None;
        }
    }

    let point = ray.at(root);
    let outward_normal = point.sub(center).div(radius);
    let t = root;
    let front_face = ray.direction.dot(outward_normal) < 0;
    let normal = if front_face {
        outward_normal
    } else {
        outward_normal.neg()
    };

    Some(Hit { point, normal, t, front_face, material: *material })
}

impl Sphere {
    pub fn hit(&self, ray: &Ray, t_min: i64, t_max: i64) -> (res: Option<Hit>)
        requires
            bounded_s(ray.direction),
        ensures
            res == sphere_hit_s(
                self.center,
                self.radius as int,
                self.material,
                *ray,
                t_min as int,
                t_max as int,
            ),
    {
        sphere_hit_exec(self.center, self.radius, &self.material, ray, t_min, t_max)
    }
}

impl MovingSphere {
    /// Center position at the given time, interpolated at constant speed;
    /// a degenerate shutter interval (`time0 == time1`) pins it at
    /// `center0`.
    pub fn center(&self, time: i64) -> (r: Vec3)
        ensures
            r == moving_center_s(*self, time as int),
    {
        let k: i64 = fx_div(fx_sub(time, self.time0), fx_sub(self.time1, self.time0));
        self.center0.add(self.center1.sub(self.center0).scale(k))
    }

    pub fn hit(&self, ray: &Ray, t_min: i64, t_max: i64) -> (res: Option<Hit>)
        requires
            bounded_s(ray.direction),
        ensures
            res == sphere_hit_s(
                moving_center_s(*self, ray.time as int),
                self.radius as int,
                self.material,
                *ray,
                t_min as int,
                t_max as int,
            ),
    {
        let center = self.center(ray.time);
        sphere_hit_exec(center, self.radius, &self.material, ray, t_min, t_max)
    }
}

impl Hittable {
    pub fn hit(&self, ray: &Ray, t_min: i64, t_max: i64) -> (res: Option<Hit>)
        requires
            bounded_s(ray.direction),
        ensures
            res == hittable_hit_s(*self, *ray, t_min as int, t_max as int),
    {
        match self {
            Hittable::Sphere(s) => s.hit(ray, t_min, t_max),
            Hittable::MovingSphere(m) => m.hit(ray, t_min, t_max),
        }
    }
}

impl Hittables {
    /// The closest hit over all primitives: each accepted hit tightens the
    /// upper bound of the range the later primitives are tested against.
    pub fn hit(&self, ray: &Ray, t_min: i64, t_max: i64) -> (res: Option<Hit>)
        requires
            bounded_s(ray.direction),
        ensures
            res == scene_hit_s(self.hittables@, *ray, t_min as int, t_max as int),
    {
        let mut hit: Option<Hit> = None;
        let mut closest: i64 = t_max;
        let n: usize = self.hittables.len();
        let mut i: usize = 0;
        proof {
            assert(self.hittables@.skip(0) =~= self.hittables@);
        }
        while i < n
            invariant
                i <= n,
                n == self.hittables@.len(),
                bounded_s(ray.direction),
                scene_hit_from_s(
                    self.hittables@.skip(i as int),
                    *ray,
                    t_min as int,
                    closest as int,
                    hit,
                ) == scene_hit_s(self.hittables@, *ray, t_min as int, t_max as int),
            decreases n - i,
        {
            let obj = self.hittables[i];
            proof {
                assert(self.hittables@.skip(i as int)[0] == self.hittables@[i as int]);
                assert(self.hittables@.skip(i as int).skip(1) =~= self.hittables@.skip(
                    i as int + 1,
                ));
            }
            if let Some(h) = obj.hit(ray, t_min, closest) {
                closest = h.t;
                hit = Some(h);
            }
            i = i + 1;
        }
        hit
    }
}

/// The scene scan is a pure function of the ray, the range and the
/// primitive list: two results computed from identical inputs are equal.
pub proof fn lemma_scene_hit_deterministic(
    objs: Seq<Hittable>,
    r: Ray,
    t_min: int,
    t_max: int,
    h1: Option<Hit>,
    h2: Option<Hit>,
)
    requires
        h1 == scene_hit_s(objs, r, t_min, t_max),
        h2 == scene_hit_s(objs, r, t_min, t_max),
    ensures
        h1 == h2,
{
}

/// An empty scene reports no hit for any ray and any range.
pub proof fn lemma_scene_hit_empty(objs: Seq<Hittable>, r: Ray, t_min: int, t_max: int)
    requires
        objs.len() == 0,
    ensures
        scene_hit_s(objs, r, t_min, t_max) is None,
{
}

/// Any hit one primitive reports lies within the asked range and carries a
/// representable point and normal: the record is built from saturating
/// operations.
pub proof fn lemma_hittable_hit_bounds(h: Hittable, r: Ray, t_min: int, t_max: int)
    ensures
        hittable_hit_s(h, r, t_min, t_max) matches Some(rec) ==> t_min <= rec.t as int <= t_max
            && bounded_s(rec.normal) && bounded_s(rec.point),
{
    let res = hittable_hit_s(h, r, t_min, t_max);
    if res is Some {
        let rec = res->Some_0;
        let center = match h {
            Hittable::Sphere(s) => s.center,
            Hittable::MovingSphere(m) => moving_center_s(m, r.time as int),
        };
        let radius = match h {
            Hittable::Sphere(s) => s.radius as int,
            Hittable::MovingSphere(m) => m.radius as int,
        };
        let outward = sphere_outward_s(center, radius, r, rec.t as int);
        assert(bounded_s(outward));
        assert(bounded_s(vneg_s(outward)));
        assert(bounded_s(at_s(r, rec.t as int)));
    }
}

/// Any hit the scan reports lies within the range it was asked about, and
/// carries a representable point and normal.
pub proof fn lemma_scene_from_in_range(
    objs: Seq<Hittable>,
    r: Ray,
    t_min: int,
    closest: int,
    best: Option<Hit>,
)
    requires
        best matches Some(b) ==> t_min <= b.t as int <= closest && bounded_s(b.normal)
            && bounded_s(b.point),
    ensures
        scene_hit_from_s(objs, r, t_min, closest, best) matches Some(h) ==> t_min <= h.t as int
            <= closest && bounded_s(h.normal) && bounded_s(h.point),
    decreases objs.len(),
{
    if objs.len() > 0 {
        lemma_hittable_hit_bounds(objs[0], r, t_min, closest);
        match hittable_hit_s(objs[0], r, t_min, closest) {
            Some(h) => {
                lemma_scene_from_in_range(objs.skip(1), r, t_min, h.t as int, Some(h));
            },
            None => {
                lemma_scene_from_in_range(objs.skip(1), r, t_min, closest, best);
            },
        }
    }
}

/// Any hit the scene reports lies within `[t_min, t_max]`, with a
/// representable point and normal.
pub proof fn lemma_scene_hit_in_range(objs: Seq<Hittable>, r: Ray, t_min: int, t_max: int)
    ensures
        scene_hit_s(objs, r, t_min, t_max) matches Some(h) ==> t_min <= h.t as int <= t_max
            && bounded_s(h.normal) && bounded_s(h.point),
{
    lemma_scene_from_in_range(objs, r, t_min, t_max, None);
}

/// A hit the scan reports beyond its starting candidate was reported by one
/// of the remaining primitives for some upper bound: the scan invents no
/// records of its own.
pub proof fn lemma_scene_from_reports_primitive(
    objs: Seq<Hittable>,
    r: Ray,
    t_min: int,
    closest: int,
    best: Option<Hit>,
)
    ensures
        scene_hit_from_s(objs, r, t_min, closest, best) matches Some(h) ==> best == Some(h)
            || exists|i: int, tm: int|
            0 <= i < objs.len() && hittable_hit_s(objs[i], r, t_min, tm) == Some(h),
    decreases objs.len(),
{
    if objs.len() > 0 {
        let res = scene_hit_from_s(objs, r, t_min, closest, best);
        if res is Some {
            let h = res->Some_0;
            match hittable_hit_s(objs[0], r, t_min, closest) {
                Some(h0) => {
                    lemma_scene_from_reports_primitive(
                        objs.skip(1),
                        r,
                        t_min,
                        h0.t as int,
                        Some(h0),
                    );
                    if h0 == h {
                        assert(hittable_hit_s(objs[0], r, t_min, closest) == Some(h));
                    } else {
                        let (i, tm) = choose|i: int, tm: int|
                            0 <= i < objs.skip(1).len() && hittable_hit_s(
                                objs.skip(1)[i],
                                r,
                                t_min,
                                tm,
                            ) == Some(h);
                        assert(objs.skip(1)[i] == objs[i + 1]);
                        assert(hittable_hit_s(objs[i + 1], r, t_min, tm) == Some(h));
                    }
                },
                None => {
                    lemma_scene_from_reports_primitive(objs.skip(1), r, t_min, closest, best);
                    if best != Some(h) {
                        let (i, tm) = choose|i: int, tm: int|
                            0 <= i < objs.skip(1).len() && hittable_hit_s(
                                objs.skip(1)[i],
                                r,
                                t_min,
                                tm,
                            ) == Some(h);
                        assert(objs.skip(1)[i] == objs[i + 1]);
                        assert(hittable_hit_s(objs[i + 1], r, t_min, tm) == Some(h));
                    }
                },
            }
        }
    }
}

/// Any hit the scene reports was reported by one of its own primitives.
pub proof fn lemma_scene_hit_reports_primitive(objs: Seq<Hittable>, r: Ray, t_min: int, t_max: int)
    ensures
        scene_hit_s(objs, r, t_min, t_max) matches Some(h) ==> exists|i: int, tm: int|
            0 <= i < objs.len() && hittable_hit_s(objs[i], r, t_min, tm) == Some(h),
{
    lemma_scene_from_reports_primitive(objs, r, t_min, t_max, None);
}

/// The intersection test prefers the nearer root: whenever the nearer
/// quadratic root lies within the range, it is the reported parameter, and
/// it never exceeds the farther root.
pub proof fn lemma_sphere_hit_prefers_near_root(
    center: Vec3,
    radius: int,
    material: Material,
    r: Ray,
    t_min: int,
    t_max: int,
)
    requires
        sphere_disc_s(center, radius, r) >= 0,
        sphere_a_s(r) > 0,
        t_min <= sphere_near_root_s(center, radius, r) <= t_max,
    ensures
        sphere_near_root_s(center, radius, r) <= sphere_far_root_s(center, radius, r),
        sphere_hit_s(center, radius, material, r, t_min, t_max) matches Some(h) && h.t as int
            == sphere_near_root_s(center, radius, r),
{
    let hb = sphere_half_b_s(center, r);
    let sq = fx_sqrt_s(sphere_disc_s(center, radius, r));
    lemma_fx_sqrt_nonneg(sphere_disc_s(center, radius, r));
    lemma_fx_div_mono(
        fx_sub_s(fx_neg_s(hb), sq),
        fx_add_s(fx_neg_s(hb), sq),
        sphere_a_s(r),
    );
}

/// The reported normal opposes the incoming ray: `front_face` records
/// whether the ray arrived from outside, the outward normal is kept exactly
/// when it did, flipped exactly when it did not, and in either case the dot
/// product of the ray direction with the reported normal is nonpositive.
pub proof fn lemma_sphere_hit_normal_opposes(
    center: Vec3,
    radius: int,
    material: Material,
    r: Ray,
    t_min: int,
    t_max: int,
)
    requires
        bounded_s(r.direction),
    ensures
        sphere_hit_s(center, radius, material, r, t_min, t_max) matches Some(h) ==> {
            let outward = sphere_outward_s(center, radius, r, h.t as int);
            &&& h.front_face == (dot_s(r.direction, outward) < 0)
            &&& h.normal == if h.front_face {
                outward
            } else {
                vneg_s(outward)
            }
            &&& dot_s(r.direction, h.normal) <= 0
        },
{
    if sphere_hit_s(center, radius, material, r, t_min, t_max) is Some {
        let h = sphere_hit_s(center, radius, material, r, t_min, t_max)->Some_0;
        let outward = sphere_outward_s(center, radius, r, h.t as int);
        if !(dot_s(r.direction, outward) < 0) {
            lemma_dot_neg_right(r.direction, outward);
        }
    }
}

} // verus!
