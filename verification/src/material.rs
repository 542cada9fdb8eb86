//! The material model: Lambertian diffuse, fuzzy metal, and dielectric
//! scattering, with the attenuation each applies to bounced light.

use vstd::prelude::*;

use crate::fixed::{
    fx_add, fx_add_s, fx_div, fx_div_s, fx_mul, fx_mul_s, fx_neg, fx_neg_s, fx_sqrt, fx_sqrt_s,
    fx_sub, fx_sub_s, lemma_int_sqrt_exists, mag, sqrt_inv, FX_MAX, FX_ONE,
};
use crate::objects::Hit;
use crate::ray::Ray;
use crate::rng::Prng;
use crate::vec3::{
    bounded_s, dot_s, edot_s, in_unit_ball_s, len_sq_s, lemma_edot_self_nonneg, lemma_len_sq_nonneg,
    near_zero_s, unit_normal_s, unit_s, vadd_s, vmulv_s, vneg_s, vscale_s, vsub_s, Vec3,
};

verus! {

#[derive(Clone, Copy, Debug, PartialEq, Eq, Structural)]
pub enum Material {
    Lambertian { albedo: Vec3 },
    Metal { albedo: Vec3, fuzz: i64 },
    Dielectric { refractive_index: i64 },
}

/// Mirror reflection about a normal: `v - 2 (v . n) n`.
pub open spec fn reflect_s(v: Vec3, normal: Vec3) -> Vec3 {
    vsub_s(v, vscale_s(normal, fx_mul_s(2 * FX_ONE as int, dot_s(v, normal))))
}

/// Cap a cosine at one, as the scattering code does before using it.
pub open spec fn min_one_s(v: int) -> int {
    if v > FX_ONE as int {
        FX_ONE as int
    } else {
        v
    }
}

/// Snell refraction of a unit direction through a surface of relative index
/// `etai_over_etat`.
pub open spec fn refract_s(uv: Vec3, normal: Vec3, etai_over_etat: int) -> Vec3 {
    let cos_theta = min_one_s(dot_s(vneg_s(uv), normal));
    let r_out_perp = vscale_s(vadd_s(uv, vscale_s(normal, cos_theta)), etai_over_etat);
    let r_out_parallel = vscale_s(
        normal,
        fx_neg_s(fx_sqrt_s(mag(fx_sub_s(FX_ONE as int, len_sq_s(r_out_perp))))),
    );
    vadd_s(r_out_perp, r_out_parallel)
}

/// Schlick's approximation of angle-dependent Fresnel reflectance.
pub open spec fn reflectance_s(cosine: int, ref_idx: int) -> int {
    let r0 = fx_div_s(fx_sub_s(FX_ONE as int, ref_idx), fx_add_s(FX_ONE as int, ref_idx));
    let r0sq = fx_mul_s(r0, r0);
    let m = fx_sub_s(FX_ONE as int, cosine);
    let m5 = fx_mul_s(fx_mul_s(fx_mul_s(m, m), fx_mul_s(m, m)), m);
    fx_add_s(r0sq, fx_mul_s(fx_sub_s(FX_ONE as int, r0sq), m5))
}

/// The relative refractive index seen by the ray: inverted when entering
/// the surface from outside.
pub open spec fn refraction_ratio_s(refractive_index: int, front_face: bool) -> int {
    if front_face {
        fx_div_s(FX_ONE as int, refractive_index)
    } else {
        refractive_index
    }
}

/// The capped cosine between the reversed unit direction and the normal.
pub open spec fn cos_theta_s(unit_dir: Vec3, normal: Vec3) -> int {
    min_one_s(fx_neg_s(dot_s(unit_dir, normal)))
}

/// The sine derived from that cosine.
pub open spec fn sin_theta_s(unit_dir: Vec3, normal: Vec3) -> int {
    fx_sqrt_s(
        fx_sub_s(
            FX_ONE as int,
            fx_mul_s(cos_theta_s(unit_dir, normal), cos_theta_s(unit_dir, normal)),
        ),
    )
}

/// Total internal reflection: the refracted sine would exceed one.
pub open spec fn dielectric_tir_s(unit_dir: Vec3, normal: Vec3, ratio: int) -> bool {
    fx_mul_s(ratio, sin_theta_s(unit_dir, normal)) > FX_ONE as int
}

/// The Lambertian scatter direction for a unit-ball draw `u`: the normal
/// plus the normalized draw, falling back to the normal itself when the sum
/// degenerates to zero.
pub open spec fn lambertian_dir_s(normal: Vec3, u: Vec3) -> Vec3 {
    let d = vadd_s(normal, unit_s(u));
    if near_zero_s(d) {
        normal
    } else {
        d
    }
}

/// The fuzzed metal reflection for a unit-ball draw `p`.
pub open spec fn metal_dir_s(v: Vec3, normal: Vec3, fuzz: int, p: Vec3) -> Vec3 {
    vadd_s(reflect_s(unit_s(v), normal), vscale_s(p, fuzz))
}

/// The glass direction for a given reflectance draw `q`: reflection under
/// total internal reflection or when the Schlick reflectance exceeds the
/// draw, refraction otherwise.
pub open spec fn dielectric_dir_s(ud: Vec3, normal: Vec3, ratio: int, q: int) -> Vec3 {
    if dielectric_tir_s(ud, normal, ratio) || reflectance_s(cos_theta_s(ud, normal), ratio) > q {
        reflect_s(ud, normal)
    } else {
        refract_s(ud, normal, ratio)
    }
}

/// What a successful scatter may produce, per material, over all generator
/// outcomes: the scattered ray starts at the hit point, keeps the incoming
/// ray's time, and its direction is built from an admissible draw. A
/// Lambertian direction stays in the hemisphere of any at-least-unit
/// normal; a metal direction points away from the surface; a glass
/// direction reflects exactly when total internal reflection holds or the
/// Schlick reflectance exceeds its draw, and refracts otherwise.
pub open spec fn scatter_rel(m: Material, ray: Ray, hit: Hit, s: Ray) -> bool {
    &&& s.origin == hit.point
    &&& s.time == ray.time
    &&& bounded_s(s.direction)
    &&& match m {
        Material::Lambertian { albedo } => (exists|u: Vec3|
            in_unit_ball_s(u) && s.direction == lambertian_dir_s(hit.normal, u)) && (unit_normal_s(
            hit.normal,
        ) ==> dot_s(s.direction, hit.normal) >= 0),
        Material::Metal { albedo, fuzz } => dot_s(s.direction, hit.normal) > 0 && exists|p: Vec3|
            in_unit_ball_s(p) && s.direction == metal_dir_s(
                ray.direction,
                hit.normal,
                fuzz as int,
                p,
            ),
        Material::Dielectric { refractive_index } => {
            let ud = unit_s(ray.direction);
            let ratio = refraction_ratio_s(refractive_index as int, hit.front_face);
            &&& (dielectric_tir_s(ud, hit.normal, ratio) ==> s.direction == reflect_s(
                ud,
                hit.normal,
            ))
            &&& exists|q: int|
                0 <= q < FX_ONE as int && s.direction == dielectric_dir_s(ud, hit.normal, ratio, q)
        },
    }
}

/// The attenuation a material applies to the light it scatters: the albedo
/// for diffuse and metal surfaces, the identity for glass.
pub open spec fn attenuate_s(m: Material, color: Vec3) -> Vec3 {
    match m {
        Material::Lambertian { albedo } => vmulv_s(albedo, color),
        Material::Metal { albedo, fuzz } => vmulv_s(albedo, color),
        Material::Dielectric { refractive_index } => color,
    }
}

fn reflect(v: Vec3, normal: Vec3) -> (r: Vec3)
    requires
        bounded_s(v),
        bounded_s(normal),
    ensures
        r == reflect_s(v, normal),
{
    v.sub(normal.scale(fx_mul(2 * FX_ONE, v.dot(normal))))
}

fn refract(uv: Vec3, normal: Vec3, etai_over_etat: i64) -> (r: Vec3)
    requires
        bounded_s(uv),
        bounded_s(normal),
    ensures
        r == refract_s(uv, normal, etai_over_etat as int),
{
    let c0: i64 = uv.neg().dot(normal);
    let cos_theta: i64 = if c0 > FX_ONE {
        FX_ONE
    } else {
        c0
    };
    let r_out_perp = uv.add(normal.scale(cos_theta)).scale(etai_over_etat);
    let d: i64 = fx_sub(FX_ONE, r_out_perp.length_squared());
    let ad: i64 = if d < 0 {
        -d
    } else {
        d
    };
    let r_out_parallel = normal.scale(fx_neg(fx_sqrt(ad)));
    r_out_perp.add(r_out_parallel)
}

fn reflectance(cosine: i64, ref_idx: i64) -> (r: i64)
    ensures
        r as int == reflectance_s(cosine as int, ref_idx as int),
{
    // Schlick's approximation for reflectance.
    let r0: i64 = fx_div(fx_sub(FX_ONE, ref_idx), fx_add(FX_ONE, ref_idx));
    let r0sq: i64 = fx_mul(r0, r0);
    let m: i64 = fx_sub(FX_ONE, cosine);
    let m2: i64 = fx_mul(m, m);
    let m5: i64 = fx_mul(fx_mul(m2, m2), m);
    fx_add(r0sq, fx_mul(fx_sub(FX_ONE, r0sq), m5))
}

impl Material {
    /// Scatter an incoming ray at a hit. A diffuse surface always scatters
    /// about its normal; a metal absorbs rays whose fuzzed reflection turns
    /// into the surface; glass always scatters, reflecting instead of
    /// refracting under total internal reflection and otherwise choosing by
    /// a reflectance draw. One unit-ball draw is consumed by the diffuse and
    /// metal cases; glass consumes at most one scalar draw.
    pub fn scatter(&self, ray: &Ray, hit: &Hit, rng: &mut Prng) -> (res: Option<Ray>)
        requires
            bounded_s(ray.direction),
            bounded_s(hit.normal),
        ensures
            res matches Some(s) ==> scatter_rel(*self, *ray, *hit, s),
            self matches Material::Lambertian { albedo } ==> res is Some,
            self matches Material::Dielectric { refractive_index } ==> res is Some,
            res is None ==> (self matches Material::Metal { albedo, fuzz } && exists|p: Vec3|
                in_unit_ball_s(p) && dot_s(
                    metal_dir_s(ray.direction, hit.normal, fuzz as int, p),
                    hit.normal,
                ) <= 0),
    {
        match *self {
            Material::Lambertian { albedo: _ } => {
                let w = Vec3::random_unit_vector(rng);
                let mut scatter_direction = hit.normal.add(w);
                if scatter_direction.near_zero() {
                    scatter_direction = hit.normal;
                }
                proof {
                    let u = choose|u: Vec3| in_unit_ball_s(u) && w == unit_s(u);
                    assert(in_unit_ball_s(u) && scatter_direction == lambertian_dir_s(
                        hit.normal,
                        u,
                    ));
                    if unit_normal_s(hit.normal) {
                        if near_zero_s(vadd_s(hit.normal, w)) {
                            lemma_len_sq_nonneg(hit.normal);
                        } else {
                            lemma_hemisphere(hit.normal, w);
                        }
                    }
                }
                let out = Ray { origin: hit.point, direction: scatter_direction, time: ray.time };
                proof {
                    assert(scatter_rel(*self, *ray, *hit, out));
                }
                Some(out)
            },
            Material::Metal { albedo: _, fuzz } => {
                let reflected = reflect(ray.direction.unit_vector(), hit.normal);
                let p = Vec3::random_in_unit_sphere(rng);
                let direction = reflected.add(p.scale(fuzz));
                proof {
                    assert(in_unit_ball_s(p) && direction == metal_dir_s(
                        ray.direction,
                        hit.normal,
                        fuzz as int,
                        p,
                    ));
                }
                if direction.dot(hit.normal) > 0 {
                    let out = Ray { origin: hit.point, direction, time: ray.time };
                    proof {
                        assert(scatter_rel(*self, *ray, *hit, out));
                    }
                    Some(out)
                } else {
                    None
                }
            },
            Material::Dielectric { refractive_index } => {
                let refraction_ratio: i64 = if hit.front_face {
                    fx_div(FX_ONE, refractive_index)
                } else {
                    refractive_index
                };

                let unit_direction = ray.direction.unit_vector();
                let c0: i64 = fx_neg(unit_direction.dot(hit.normal));
                let cos_theta: i64 = if c0 > FX_ONE {
                    FX_ONE
                } else {
                    c0
                };
                let sin_theta: i64 = fx_sqrt(fx_sub(FX_ONE, fx_mul(cos_theta, cos_theta)));

                let cannot_refract = fx_mul(refraction_ratio, sin_theta) > FX_ONE;
                let direction = if cannot_refract {
                    let d = reflect(unit_direction, hit.normal);
                    proof {
                        assert(d == dielectric_dir_s(
                            unit_s(ray.direction),
                            hit.normal,
                            refraction_ratio as int,
                            0,
                        ));
                    }
                    d
                } else {
                    let draw: i64 = rng.next_in(0, FX_ONE);
                    let d = if reflectance(cos_theta, refraction_ratio) > draw {
                        reflect(unit_direction, hit.normal)
                    } else {
                        refract(unit_direction, hit.normal, refraction_ratio)
                    };
                    proof {
                        assert(d == dielectric_dir_s(
                            unit_s(ray.direction),
                            hit.normal,
                            refraction_ratio as int,
                            draw as int,
                        ));
                    }
                    d
                };
                let out = Ray { origin: hit.point, direction, time: ray.time };
                proof {
                    let ud = unit_s(ray.direction);
                    let ratio = refraction_ratio_s(refractive_index as int, hit.front_face);
                    assert(refraction_ratio as int == ratio);
                    assert(cannot_refract == dielectric_tir_s(ud, hit.normal, ratio));
                    assert(dielectric_tir_s(ud, hit.normal, ratio) ==> direction == reflect_s(
                        ud,
                        hit.normal,
                    ));
                    assert(exists|q: int|
                        0 <= q < FX_ONE as int && direction == dielectric_dir_s(
                            ud,
                            hit.normal,
                            ratio,
                            q,
                        ));
                    assert(bounded_s(direction));
                    assert(scatter_rel(*self, *ray, *hit, out));
                }
                Some(out)
            },
        }
    }

    pub fn attenuate(&self, color: Vec3) -> (r: Vec3)
        ensures
            r == attenuate_s(*self, color),
    {
        match *self {
            Material::Lambertian { albedo } => albedo.mul_vec(color),
            Material::Metal { albedo, fuzz: _ } => albedo.mul_vec(color),
            Material::Dielectric { refractive_index: _ } => color,
        }
    }
}

/// Adding an offset whose exact squared length is at most the normal's own
/// cannot turn the sum against the normal: the fixed-point dot product of
/// the sum with the normal stays nonnegative. Stated for offsets within one
/// unit and normals with room to add one unit without saturating.
pub proof fn lemma_hemisphere(n: Vec3, w: Vec3)
    requires
        edot_s(w, w) <= edot_s(n, n),
        mag(n.x as int) <= FX_MAX as int - FX_ONE as int,
        mag(n.y as int) <= FX_MAX as int - FX_ONE as int,
        mag(n.z as int) <= FX_MAX as int - FX_ONE as int,
        mag(w.x as int) <= FX_ONE as int,
        mag(w.y as int) <= FX_ONE as int,
        mag(w.z as int) <= FX_ONE as int,
    ensures
        dot_s(vadd_s(n, w), n) >= 0,
{
    let d = vadd_s(n, w);
    assert(d.x as int == n.x as int + w.x as int);
    assert(d.y as int == n.y as int + w.y as int);
    assert(d.z as int == n.z as int + w.z as int);
    // The squared length of the sum expands into both squared lengths and
    // twice the inner product; being a sum of squares it is nonnegative,
    // which bounds the inner product from below.
    lemma_edot_self_nonneg(d);
    assert(edot_s(d, d) == edot_s(n, n) + 2 * edot_s(w, n) + edot_s(w, w)) by (nonlinear_arith)
        requires
            d.x as int == n.x as int + w.x as int,
            d.y as int == n.y as int + w.y as int,
            d.z as int == n.z as int + w.z as int;
    assert(edot_s(d, n) == edot_s(n, n) + edot_s(w, n)) by (nonlinear_arith)
        requires
            d.x as int == n.x as int + w.x as int,
            d.y as int == n.y as int + w.y as int,
            d.z as int == n.z as int + w.z as int;
    vstd::arithmetic::div_mod::lemma_div_pos_is_pos(mag(edot_s(d, n)), FX_ONE as int);
}

/// The material's albedo lies in the unit cube (vacuous for glass, whose
/// attenuation is the identity).
pub open spec fn material_albedo_in_range_s(m: Material) -> bool {
    match m {
        Material::Lambertian { albedo } => crate::color::color_in_range_s(albedo),
        Material::Metal { albedo, fuzz } => crate::color::color_in_range_s(albedo),
        Material::Dielectric { refractive_index } => true,
    }
}

/// Attenuating an in-range color by an in-range albedo yields an in-range
/// color: a bounce never gains energy in any channel.
pub proof fn lemma_attenuate_in_range(m: Material, c: Vec3)
    requires
        crate::color::color_in_range_s(c),
        m matches Material::Lambertian { albedo } ==> crate::color::color_in_range_s(albedo),
        m matches Material::Metal { albedo, fuzz } ==> crate::color::color_in_range_s(albedo),
    ensures
        crate::color::color_in_range_s(attenuate_s(m, c)),
{
    match m {
        Material::Lambertian { albedo } => {
            lemma_channel_product_in_range(albedo.x as int, c.x as int);
            lemma_channel_product_in_range(albedo.y as int, c.y as int);
            lemma_channel_product_in_range(albedo.z as int, c.z as int);
        },
        Material::Metal { albedo, fuzz } => {
            lemma_channel_product_in_range(albedo.x as int, c.x as int);
            lemma_channel_product_in_range(albedo.y as int, c.y as int);
            lemma_channel_product_in_range(albedo.z as int, c.z as int);
        },
        Material::Dielectric { refractive_index } => {},
    }
}

/// The fixed-point product of two unit-interval channels stays in the unit
/// interval.
proof fn lemma_channel_product_in_range(a: int, b: int)
    requires
        0 <= a <= FX_ONE as int,
        0 <= b <= FX_ONE as int,
    ensures
        0 <= fx_mul_s(a, b) <= FX_ONE as int,
{
    assert(0 <= a * b <= 65536 * 65536) by (nonlinear_arith)
        requires
            0 <= a <= 65536,
            0 <= b <= 65536;
    vstd::arithmetic::div_mod::lemma_div_pos_is_pos(a * b, FX_ONE as int);
    vstd::arithmetic::div_mod::lemma_div_is_ordered(a * b, (65536 * 65536) as int, FX_ONE as int);
    vstd::arithmetic::div_mod::lemma_div_multiples_vanish(65536, 65536);
}

/// A refractive index of one never signals total internal reflection: the
/// refraction ratio is exactly one and the computed sine never exceeds one.
pub proof fn lemma_unity_index_no_tir(unit_dir: Vec3, normal: Vec3, front_face: bool)
    ensures
        refraction_ratio_s(FX_ONE as int, front_face) == FX_ONE as int,
        !dielectric_tir_s(unit_dir, normal, refraction_ratio_s(FX_ONE as int, front_face)),
{
    assert(refraction_ratio_s(FX_ONE as int, front_face) == FX_ONE as int) by {
        if front_face {
            vstd::arithmetic::div_mod::lemma_div_multiples_vanish(65536, 65536);
        }
    };
    let cos = cos_theta_s(unit_dir, normal);
    assert(cos * cos >= 0) by (nonlinear_arith);
    vstd::arithmetic::div_mod::lemma_div_pos_is_pos(mag(cos * cos), FX_ONE as int);
    let c2 = fx_mul_s(cos, cos);
    let arg = fx_sub_s(FX_ONE as int, c2);
    let sin = sin_theta_s(unit_dir, normal);
    crate::fixed::lemma_fx_sqrt_nonneg(arg);
    if arg <= 0 {
        assert(sin == 0);
    } else {
        lemma_int_sqrt_exists(arg * (FX_ONE as int));
        assert(sin <= FX_ONE as int) by (nonlinear_arith)
            requires
                sqrt_inv(arg * (FX_ONE as int), sin),
                arg <= FX_ONE as int;
    }
    assert(fx_mul_s(FX_ONE as int, sin) == sin) by {
        vstd::arithmetic::div_mod::lemma_div_multiples_vanish(sin, FX_ONE as int);
        assert((FX_ONE as int) * sin == mag((FX_ONE as int) * sin)) by (nonlinear_arith)
            requires
                sin >= 0;
    };
}

} // verus!
