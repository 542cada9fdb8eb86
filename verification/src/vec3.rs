//! The three-component fixed-point vector used for points, directions and
//! colors alike.

use vstd::prelude::*;

use crate::fixed::{
    fx_add, fx_add_s, fx_div, fx_div_s, fx_mul, fx_mul_s, fx_neg, fx_neg_s, fx_sub, fx_sub_s,
    int_sqrt, isqrt128, lemma_int_sqrt_exists, lemma_int_sqrt_unique, lemma_tdiv_mono,
    lemma_tdiv_neg, mag, sat_s, sqrt_inv, tdiv_s, FX_MAX, FX_ONE,
};
use crate::rng::Prng;

verus! {

#[derive(Clone, Copy, Debug, PartialEq, Eq, Structural)]
pub struct Vec3 {
    pub x: i64,
    pub y: i64,
    pub z: i64,
}

/// Build a vector from spec-level component values.
pub open spec fn v3(x: int, y: int, z: int) -> Vec3 {
    Vec3 { x: x as i64, y: y as i64, z: z as i64 }
}

/// Every component is a representable fixed-point value. All vector
/// operations keep their results within these bounds.
pub open spec fn bounded_s(v: Vec3) -> bool {
    mag(v.x as int) <= FX_MAX as int && mag(v.y as int) <= FX_MAX as int && mag(v.z as int)
        <= FX_MAX as int
}

pub open spec fn vadd_s(a: Vec3, b: Vec3) -> Vec3 {
    v3(
        fx_add_s(a.x as int, b.x as int),
        fx_add_s(a.y as int, b.y as int),
        fx_add_s(a.z as int, b.z as int),
    )
}

pub open spec fn vsub_s(a: Vec3, b: Vec3) -> Vec3 {
    v3(
        fx_sub_s(a.x as int, b.x as int),
        fx_sub_s(a.y as int, b.y as int),
        fx_sub_s(a.z as int, b.z as int),
    )
}

pub open spec fn vneg_s(a: Vec3) -> Vec3 {
    v3(fx_neg_s(a.x as int), fx_neg_s(a.y as int), fx_neg_s(a.z as int))
}

/// Scale by a fixed-point factor.
pub open spec fn vscale_s(a: Vec3, k: int) -> Vec3 {
    v3(fx_mul_s(a.x as int, k), fx_mul_s(a.y as int, k), fx_mul_s(a.z as int, k))
}

/// Divide by a fixed-point factor.
pub open spec fn vdiv_s(a: Vec3, k: int) -> Vec3 {
    v3(fx_div_s(a.x as int, k), fx_div_s(a.y as int, k), fx_div_s(a.z as int, k))
}

/// Componentwise product, used to attenuate a color by an albedo.
pub open spec fn vmulv_s(a: Vec3, b: Vec3) -> Vec3 {
    v3(
        fx_mul_s(a.x as int, b.x as int),
        fx_mul_s(a.y as int, b.y as int),
        fx_mul_s(a.z as int, b.z as int),
    )
}

/// The exact integer inner product of the raw components, before the
/// fixed-point rescaling. Sign questions about `dot_s` reduce to it.
pub open spec fn edot_s(a: Vec3, b: Vec3) -> int {
    (a.x as int) * (b.x as int) + (a.y as int) * (b.y as int) + (a.z as int) * (b.z as int)
}

/// The fixed-point dot product: one truncating rescale of the exact sum.
pub open spec fn dot_s(a: Vec3, b: Vec3) -> int {
    sat_s(tdiv_s(edot_s(a, b), FX_ONE as int))
}

pub open spec fn len_sq_s(v: Vec3) -> int {
    dot_s(v, v)
}

/// The length of a vector, taken as the integer square root of the exact
/// component sum (which carries the fixed-point scale squared), so that no
/// precision is lost before the root; saturated like every other result.
/// It is zero exactly for the zero vector.
pub open spec fn len_s(v: Vec3) -> int {
    sat_s(int_sqrt(edot_s(v, v)))
}

/// Normalization; the zero policy of `fx_div_s` makes a vector of length
/// zero normalize to the zero vector.
pub open spec fn unit_s(v: Vec3) -> Vec3 {
    vdiv_s(v, len_s(v))
}

pub open spec fn cross_s(a: Vec3, b: Vec3) -> Vec3 {
    v3(
        fx_sub_s(fx_mul_s(a.y as int, b.z as int), fx_mul_s(a.z as int, b.y as int)),
        fx_sub_s(fx_mul_s(a.z as int, b.x as int), fx_mul_s(a.x as int, b.z as int)),
        fx_sub_s(fx_mul_s(a.x as int, b.y as int), fx_mul_s(a.y as int, b.x as int)),
    )
}

/// Degenerate at the fixed-point granularity: every component is zero.
pub open spec fn near_zero_s(v: Vec3) -> bool {
    v.x == 0 && v.y == 0 && v.z == 0
}

/// A rejection-sampled point of the open unit ball.
pub open spec fn in_unit_ball_s(v: Vec3) -> bool {
    &&& -(FX_ONE as int) <= v.x as int <= FX_ONE as int
    &&& -(FX_ONE as int) <= v.y as int <= FX_ONE as int
    &&& -(FX_ONE as int) <= v.z as int <= FX_ONE as int
    &&& len_sq_s(v) < FX_ONE as int
}

/// A rejection-sampled point of the open unit disk in the x-y plane.
pub open spec fn in_unit_disk_s(v: Vec3) -> bool {
    in_unit_ball_s(v) && v.z == 0
}

/// The fixed-point rendering of a unit-length surface normal: at least one
/// unit long by the exact component sum, with room to add a unit offset in
/// each component without saturating.
pub open spec fn unit_normal_s(n: Vec3) -> bool {
    &&& edot_s(n, n) >= (FX_ONE as int) * (FX_ONE as int)
    &&& mag(n.x as int) <= FX_MAX as int - FX_ONE as int
    &&& mag(n.y as int) <= FX_MAX as int - FX_ONE as int
    &&& mag(n.z as int) <= FX_MAX as int - FX_ONE as int
}

impl Vec3 {
    pub fn new(x: i64, y: i64, z: i64) -> (r: Vec3)
        ensures
            r == (Vec3 { x, y, z }),
    {
        Vec3 { x, y, z }
    }

    /// Component by position: x, y, z.
    pub fn index(&self, i: usize) -> (r: i64)
        requires
            i < 3,
        ensures
            i == 0 ==> r == self.x,
            i == 1 ==> r == self.y,
            i == 2 ==> r == self.z,
    {
        match i {
            0 => self.x,
            1 => self.y,
            _ => self.z,
        }
    }

    pub fn neg(self) -> (r: Vec3)
        ensures
            r == vneg_s(self),
    {
        Vec3 { x: fx_neg(self.x), y: fx_neg(self.y), z: fx_neg(self.z) }
    }

    pub fn add(self, rhs: Vec3) -> (r: Vec3)
        ensures
            r == vadd_s(self, rhs),
    {
        Vec3 { x: fx_add(self.x, rhs.x), y: fx_add(self.y, rhs.y), z: fx_add(self.z, rhs.z) }
    }

    pub fn sub(self, rhs: Vec3) -> (r: Vec3)
        ensures
            r == vsub_s(self, rhs),
    {
        Vec3 { x: fx_sub(self.x, rhs.x), y: fx_sub(self.y, rhs.y), z: fx_sub(self.z, rhs.z) }
    }

    pub fn scale(self, k: i64) -> (r: Vec3)
        ensures
            r == vscale_s(self, k as int),
    {
        Vec3 { x: fx_mul(self.x, k), y: fx_mul(self.y, k), z: fx_mul(self.z, k) }
    }

    pub fn div(self, k: i64) -> (r: Vec3)
        ensures
            r == vdiv_s(self, k as int),
    {
        Vec3 { x: fx_div(self.x, k), y: fx_div(self.y, k), z: fx_div(self.z, k) }
    }

    pub fn mul_vec(self, rhs: Vec3) -> (r: Vec3)
        ensures
            r == vmulv_s(self, rhs),
    {
        Vec3 { x: fx_mul(self.x, rhs.x), y: fx_mul(self.y, rhs.y), z: fx_mul(self.z, rhs.z) }
    }

    pub fn dot(&self, rhs: Vec3) -> (r: i64)
        requires
            bounded_s(*self),
            bounded_s(rhs),
        ensures
            r as int == dot_s(*self, rhs),
    {
        proof {
            assert(mag((self.x as int) * (rhs.x as int)) <= 0x1000000000000000000000000)
                by (nonlinear_arith)
                requires
                    mag(self.x as int) <= 0x400000000000,
                    mag(rhs.x as int) <= 0x400000000000;
            assert(mag((self.y as int) * (rhs.y as int)) <= 0x1000000000000000000000000)
                by (nonlinear_arith)
                requires
                    mag(self.y as int) <= 0x400000000000,
                    mag(rhs.y as int) <= 0x400000000000;
            assert(mag((self.z as int) * (rhs.z as int)) <= 0x1000000000000000000000000)
                by (nonlinear_arith)
                requires
                    mag(self.z as int) <= 0x400000000000,
                    mag(rhs.z as int) <= 0x400000000000;
        }
        let e: i128 = (self.x as i128) * (rhs.x as i128) + (self.y as i128) * (rhs.y as i128) + (
        self.z as i128) * (rhs.z as i128);
        let q: i128 = crate::fixed::tdiv128(e, FX_ONE as i128);
        crate::fixed::sat128(q)
    }

    pub fn length_squared(&self) -> (r: i64)
        requires
            bounded_s(*self),
        ensures
            r as int == len_sq_s(*self),
    {
        self.dot(*self)
    }

    pub fn length(&self) -> (r: i64)
        requires
            bounded_s(*self),
        ensures
            r as int == len_s(*self),
    {
        proof {
            assert(mag((self.x as int) * (self.x as int)) <= 0x1000000000000000000000000)
                by (nonlinear_arith)
                requires
                    mag(self.x as int) <= 0x400000000000;
            assert(mag((self.y as int) * (self.y as int)) <= 0x1000000000000000000000000)
                by (nonlinear_arith)
                requires
                    mag(self.y as int) <= 0x400000000000;
            assert(mag((self.z as int) * (self.z as int)) <= 0x1000000000000000000000000)
                by (nonlinear_arith)
                requires
                    mag(self.z as int) <= 0x400000000000;
            lemma_edot_self_nonneg(*self);
        }
        let e: i128 = (self.x as i128) * (self.x as i128) + (self.y as i128) * (self.y as i128) + (
        self.z as i128) * (self.z as i128);
        let r: u128 = isqrt128(e as u128);
        proof {
            lemma_int_sqrt_unique(e as int, r as int);
            assert((r as int) < 0x800000000000000) by (nonlinear_arith)
                requires
                    sqrt_inv(e as int, r as int),
                    (e as int) < 0x40000000000000000000000000000;
        }
        if r > FX_MAX as u128 {
            FX_MAX
        } else {
            r as i64
        }
    }

    pub fn unit_vector(self) -> (r: Vec3)
        requires
            bounded_s(self),
        ensures
            r == unit_s(self),
    {
        let l: i64 = self.length();
        self.div(l)
    }

    pub fn cross(&self, rhs: Vec3) -> (r: Vec3)
        ensures
            r == cross_s(*self, rhs),
    {
        Vec3 {
            x: fx_sub(fx_mul(self.y, rhs.z), fx_mul(self.z, rhs.y)),
            y: fx_sub(fx_mul(self.z, rhs.x), fx_mul(self.x, rhs.z)),
            z: fx_sub(fx_mul(self.x, rhs.y), fx_mul(self.y, rhs.x)),
        }
    }

    pub fn near_zero(&self) -> (r: bool)
        ensures
            r == near_zero_s(*self),
    {
        self.x == 0 && self.y == 0 && self.z == 0
    }

    /// A vector whose components are uniform draws from [lo, hi).
    pub fn random(rng: &mut Prng, lo: i64, hi: i64) -> (r: Vec3)
        requires
            lo < hi,
            -FX_MAX <= lo,
            hi <= FX_MAX,
        ensures
            lo <= r.x < hi,
            lo <= r.y < hi,
            lo <= r.z < hi,
            bounded_s(r),
    {
        let x: i64 = rng.next_in(lo, hi);
        let y: i64 = rng.next_in(lo, hi);
        let z: i64 = rng.next_in(lo, hi);
        Vec3 { x, y, z }
    }

    /// Rejection sampling: uniform draws from the enclosing box until one
    /// falls inside the unit ball. The attempt bound keeps the sampler
    /// total; exhausting it (vanishingly unlikely) yields the ball's center.
    pub fn random_in_unit_sphere(rng: &mut Prng) -> (r: Vec3)
        ensures
            in_unit_ball_s(r),
    {
        let mut tries: u32 = 0;
        while tries < 256
            invariant
                true,
            decreases 256 - tries,
        {
            let p = Vec3::random(rng, -FX_ONE, FX_ONE);
            if p.length_squared() < FX_ONE {
                return p;
            }
            tries = tries + 1;
        }
        Vec3 { x: 0, y: 0, z: 0 }
    }

    /// A unit direction: a rejection-sampled ball point, normalized. Draws
    /// whose normalization overshoots one unit on the fixed-point grid (the
    /// exact squared sum above one) are rejected along with those outside
    /// the ball, a defensive guard of the same rejection-sampling kind, so
    /// the result never exceeds unit length. The attempt bound keeps the
    /// sampler total; exhausting it yields the zero direction, which the
    /// scattering code treats by its degenerate-direction fallback.
    pub fn random_unit_vector(rng: &mut Prng) -> (w: Vec3)
        ensures
            edot_s(w, w) <= (FX_ONE as int) * (FX_ONE as int),
            mag(w.x as int) <= FX_ONE as int,
            mag(w.y as int) <= FX_ONE as int,
            mag(w.z as int) <= FX_ONE as int,
            exists|u: Vec3| in_unit_ball_s(u) && w == unit_s(u),
    {
        let mut tries: u32 = 0;
        while tries < 256
            invariant
                true,
            decreases 256 - tries,
        {
            let u = Vec3::random(rng, -FX_ONE, FX_ONE);
            if u.length_squared() < FX_ONE {
                let w = u.unit_vector();
                proof {
                    lemma_unit_components_bounded(u);
                    assert(mag((w.x as int) * (w.x as int)) <= 0x100000000) by (nonlinear_arith)
                        requires
                            mag(w.x as int) <= 0x10000;
                    assert(mag((w.y as int) * (w.y as int)) <= 0x100000000) by (nonlinear_arith)
                        requires
                            mag(w.y as int) <= 0x10000;
                    assert(mag((w.z as int) * (w.z as int)) <= 0x100000000) by (nonlinear_arith)
                        requires
                            mag(w.z as int) <= 0x10000;
                }
                let e: i128 = (w.x as i128) * (w.x as i128) + (w.y as i128) * (w.y as i128) + (
                w.z as i128) * (w.z as i128);
                if e <= (FX_ONE as i128) * (FX_ONE as i128) {
                    proof {
                        assert(in_unit_ball_s(u) && w == unit_s(u));
                    }
                    return w;
                }
            }
            tries = tries + 1;
        }
        let z = Vec3 { x: 0, y: 0, z: 0 };
        proof {
            lemma_unit_of_zero(z);
            assert(in_unit_ball_s(z) && z == unit_s(z));
        }
        z
    }

    /// A unit-ball sample turned to the side of the given normal.
    pub fn random_in_hemisphere(rng: &mut Prng, normal: Vec3) -> (r: Vec3)
        requires
            bounded_s(normal),
        ensures
            in_unit_ball_s(r),
            dot_s(r, normal) >= 0,
    {
        let in_unit_sphere = Vec3::random_in_unit_sphere(rng);
        if in_unit_sphere.dot(normal) > 0 {
            in_unit_sphere
        } else {
            proof {
                lemma_dot_neg_left(in_unit_sphere, normal);
                lemma_len_sq_neg(in_unit_sphere);
            }
            in_unit_sphere.neg()
        }
    }

    /// Rejection sampling in the unit disk of the lens plane.
    pub fn random_in_unit_disk(rng: &mut Prng) -> (r: Vec3)
        ensures
            in_unit_disk_s(r),
    {
        let mut tries: u32 = 0;
        while tries < 256
            invariant
                true,
            decreases 256 - tries,
        {
            let x: i64 = rng.next_in(-FX_ONE, FX_ONE);
            let y: i64 = rng.next_in(-FX_ONE, FX_ONE);
            let p = Vec3 { x, y, z: 0 };
            if p.length_squared() < FX_ONE {
                return p;
            }
            tries = tries + 1;
        }
        Vec3 { x: 0, y: 0, z: 0 }
    }
}

/// The zero vector normalizes to itself: its exact sum is zero, so its
/// length is zero and the division policy returns zero components.
pub proof fn lemma_unit_of_zero(z: Vec3)
    requires
        near_zero_s(z),
    ensures
        len_s(z) == 0,
        unit_s(z) == z,
{
    assert(edot_s(z, z) == 0);
    lemma_int_sqrt_exists(0);
    let r = int_sqrt(0);
    assert(r == 0) by (nonlinear_arith)
        requires
            sqrt_inv(0, r);
    assert(unit_s(z).x as int == fx_div_s(0, 0));
}

/// Each component of a normalized representable vector lies within one
/// unit: a component never exceeds the exact length, and dividing by the
/// (saturated) length cannot push the quotient past the scale.
pub proof fn lemma_unit_components_bounded(v: Vec3)
    requires
        bounded_s(v),
    ensures
        mag(unit_s(v).x as int) <= FX_ONE as int,
        mag(unit_s(v).y as int) <= FX_ONE as int,
        mag(unit_s(v).z as int) <= FX_ONE as int,
{
    let e = edot_s(v, v);
    lemma_edot_self_nonneg(v);
    lemma_int_sqrt_exists(e);
    let l = int_sqrt(e);
    if e == 0 {
        assert((v.x as int) * (v.x as int) == 0 && (v.y as int) * (v.y as int) == 0 && (v.z as int)
            * (v.z as int) == 0) by (nonlinear_arith)
            requires
                (v.x as int) * (v.x as int) + (v.y as int) * (v.y as int) + (v.z as int) * (
                v.z as int) == 0;
        assert(v.x == 0 && v.y == 0 && v.z == 0) by (nonlinear_arith)
            requires
                (v.x as int) * (v.x as int) == 0,
                (v.y as int) * (v.y as int) == 0,
                (v.z as int) * (v.z as int) == 0;
        lemma_unit_of_zero(v);
    } else {
        assert(l >= 1) by (nonlinear_arith)
            requires
                sqrt_inv(e, l),
                e >= 1;
        let len = len_s(v);
        assert(len == sat_s(l));
        assert((v.x as int) * (v.x as int) <= e && (v.y as int) * (v.y as int) <= e && (v.z as int)
            * (v.z as int) <= e) by (nonlinear_arith)
            requires
                e == (v.x as int) * (v.x as int) + (v.y as int) * (v.y as int) + (v.z as int) * (
                v.z as int);
        lemma_unit_component_bounded_one(v.x as int, e, l, len);
        lemma_unit_component_bounded_one(v.y as int, e, l, len);
        lemma_unit_component_bounded_one(v.z as int, e, l, len);
    }
}

/// One component of the bound above: `|c| <= len` forces the quotient
/// `c * FX_ONE / len` to stay within the scale.
proof fn lemma_unit_component_bounded_one(c: int, e: int, l: int, len: int)
    requires
        mag(c) <= FX_MAX as int,
        c * c <= e,
        sqrt_inv(e, l),
        l >= 1,
        len == sat_s(l),
    ensures
        mag(fx_div_s(c, len)) <= FX_ONE as int,
{
    assert(mag(c) <= l) by (nonlinear_arith)
        requires
            c * c <= e,
            sqrt_inv(e, l);
    assert(1 <= len && mag(c) <= len);
    assert(tdiv_s(mag(c) * (FX_ONE as int), len) <= FX_ONE as int) by {
        lemma_tdiv_mono(mag(c) * (FX_ONE as int), len * (FX_ONE as int), len);
        vstd::arithmetic::div_mod::lemma_div_multiples_vanish(FX_ONE as int, len);
        assert(len * (FX_ONE as int) == mag(len * (FX_ONE as int))) by (nonlinear_arith)
            requires
                len >= 1;
    };
    lemma_tdiv_neg(mag(c) * (FX_ONE as int), len);
    vstd::arithmetic::div_mod::lemma_div_pos_is_pos(mag(c * (FX_ONE as int)), len);
    if c < 0 {
        assert(c * (FX_ONE as int) == -(mag(c) * (FX_ONE as int))) by (nonlinear_arith)
            requires
                c < 0;
    }
}

/// Negating the right argument of a dot product negates the product, for
/// vectors within the representable range.
pub proof fn lemma_dot_neg_right(a: Vec3, b: Vec3)
    requires
        bounded_s(b),
    ensures
        dot_s(a, vneg_s(b)) == -dot_s(a, b),
{
    let nb = vneg_s(b);
    assert(edot_s(a, nb) == -edot_s(a, b)) by (nonlinear_arith)
        requires
            nb.x as int == -(b.x as int),
            nb.y as int == -(b.y as int),
            nb.z as int == -(b.z as int);
    lemma_tdiv_neg(edot_s(a, b), FX_ONE as int);
}

/// A vector's exact inner product with itself is never negative.
pub proof fn lemma_edot_self_nonneg(v: Vec3)
    ensures
        edot_s(v, v) >= 0,
{
    assert(edot_s(v, v) >= 0) by (nonlinear_arith);
}

/// A vector's fixed-point squared length is never negative.
pub proof fn lemma_len_sq_nonneg(v: Vec3)
    ensures
        len_sq_s(v) >= 0,
{
    lemma_edot_self_nonneg(v);
    vstd::arithmetic::div_mod::lemma_div_pos_is_pos(mag(edot_s(v, v)), FX_ONE as int);
}

/// Negation preserves the squared length of a representable vector.
pub proof fn lemma_len_sq_neg(v: Vec3)
    requires
        bounded_s(v),
    ensures
        len_sq_s(vneg_s(v)) == len_sq_s(v),
{
    let nv = vneg_s(v);
    assert(edot_s(nv, nv) == edot_s(v, v)) by (nonlinear_arith)
        requires
            nv.x as int == -(v.x as int),
            nv.y as int == -(v.y as int),
            nv.z as int == -(v.z as int);
}

/// Negating the left argument of a dot product negates the product, for
/// vectors within the representable range.
pub proof fn lemma_dot_neg_left(a: Vec3, b: Vec3)
    requires
        bounded_s(a),
    ensures
        dot_s(vneg_s(a), b) == -dot_s(a, b),
{
    let na = vneg_s(a);
    assert(na.x as int == -(a.x as int));
    assert(na.y as int == -(a.y as int));
    assert(na.z as int == -(a.z as int));
    assert(edot_s(na, b) == -edot_s(a, b)) by (nonlinear_arith)
        requires
            na.x as int == -(a.x as int),
            na.y as int == -(a.y as int),
            na.z as int == -(a.z as int);
    lemma_tdiv_neg(edot_s(a, b), FX_ONE as int);
}

} // verus!
