//! A ray: origin, direction, and the instant of the shutter interval at
//! which it samples the scene.

use vstd::prelude::*;

use crate::color::{sky_blue_s, white_s};
use crate::fixed::{fx_add, fx_add_s, fx_mul, fx_mul_s, fx_sub, fx_sub_s, tdiv_s, FX_ONE};
use crate::vec3::{bounded_s, lemma_unit_components_bounded, unit_s, vadd_s, vscale_s, Vec3};

verus! {

#[derive(Clone, Copy, Debug, PartialEq, Eq, Structural)]
pub struct Ray {
    pub origin: Vec3,
    pub direction: Vec3,
    pub time: i64,
}

/// The point a ray reaches at parameter `t`.
pub open spec fn at_s(r: Ray, t: int) -> Vec3 {
    vadd_s(r.origin, vscale_s(r.direction, t))
}

/// The sky gradient seen by a ray that escapes the scene: a linear blend
/// from white at the horizon to sky blue toward the zenith, driven by the
/// y component of the unit direction mapped from [-1, 1] to [0, 1].
pub open spec fn background_s(r: Ray) -> Vec3 {
    let ud = unit_s(r.direction);
    let t = fx_mul_s(32768, fx_add_s(ud.y as int, FX_ONE as int));
    vadd_s(vscale_s(white_s(), fx_sub_s(FX_ONE as int, t)), vscale_s(sky_blue_s(), t))
}

impl Ray {
    pub fn at(&self, t: i64) -> (r: Vec3)
        ensures
            r == at_s(*self, t as int),
    {
        self.origin.add(self.direction.scale(t))
    }

    /// The background radiance of this ray: exactly the gradient value,
    /// which always lies on the white-to-blue segment.
    pub fn color(&self) -> (r: Vec3)
        requires
            bounded_s(self.direction),
        ensures
            r == background_s(*self),
            r.z == FX_ONE,
            32768 <= r.x as int <= r.y as int <= FX_ONE as int,
    {
        proof {
            lemma_background_on_segment(*self);
        }
        let unit_direction = self.direction.unit_vector();
        let t: i64 = fx_mul(32768, fx_add(unit_direction.y, FX_ONE));
        crate::color::white().scale(fx_sub(FX_ONE, t)).add(crate::color::sky_blue().scale(t))
    }
}

/// The background never leaves the segment between white and sky blue: the
/// blue channel is exactly one, and one half bounds the red channel from
/// below, the green channel sitting between them. This holds for every
/// representable direction because no unit-vector component can exceed one
/// unit on the fixed-point grid.
pub proof fn lemma_background_on_segment(r: Ray)
    requires
        bounded_s(r.direction),
    ensures
        background_s(r).z == FX_ONE,
        32768 <= background_s(r).x as int,
        background_s(r).x as int <= background_s(r).y as int,
        background_s(r).y as int <= FX_ONE as int,
{
    lemma_unit_components_bounded(r.direction);
    let ud = unit_s(r.direction);
    let y = ud.y as int;
    assert(-65536 <= y <= 65536);
    let a = y + 65536;
    assert(fx_add_s(y, FX_ONE as int) == a);

    // The blend parameter t = (32768 * a) / 65536 lies in [0, one].
    let p = 32768 * a;
    assert(0 <= 32768 * a && 32768 * a <= 4294967296) by (nonlinear_arith)
        requires
            0 <= a <= 131072;
    let q = p / 65536;
    assert(tdiv_s(p, FX_ONE as int) == q);
    vstd::arithmetic::div_mod::lemma_div_pos_is_pos(p, 65536);
    vstd::arithmetic::div_mod::lemma_div_is_ordered(p, 4294967296, 65536);
    assert(4294967296int / 65536 == 65536) by {
        vstd::arithmetic::div_mod::lemma_div_multiples_vanish(65536, 65536);
        assert(65536 * 65536 == 4294967296) by (nonlinear_arith);
    }
    assert(0 <= q <= 65536);
    let t = fx_mul_s(32768, a);
    assert(t == q);

    // Scaling a channel of one by a factor in [0, one] reproduces the
    // factor: the white contribution is one - t in every channel, and the
    // blue channel of the zenith color contributes exactly t.
    let w = 65536 - t;
    assert(fx_sub_s(FX_ONE as int, t) == w);
    assert(65536 * w >= 0) by (nonlinear_arith)
        requires
            w >= 0;
    vstd::arithmetic::div_mod::lemma_div_multiples_vanish(w, 65536);
    assert(tdiv_s(65536 * w, FX_ONE as int) == w);
    assert(fx_mul_s(FX_ONE as int, w) == w);
    assert(65536 * t >= 0) by (nonlinear_arith)
        requires
            t >= 0;
    vstd::arithmetic::div_mod::lemma_div_multiples_vanish(t, 65536);
    assert(tdiv_s(65536 * t, FX_ONE as int) == t);
    assert(fx_mul_s(FX_ONE as int, t) == t);

    // The red channel of the zenith color contributes exactly t / 2.
    assert(32768 * t >= 0) by (nonlinear_arith)
        requires
            t >= 0;
    vstd::arithmetic::div_mod::lemma_div_denominator(32768 * t, 32768, 2);
    vstd::arithmetic::div_mod::lemma_div_multiples_vanish(t, 32768);
    assert((32768 * t) / 65536 == t / 2);
    assert(tdiv_s(32768 * t, FX_ONE as int) == t / 2);
    vstd::arithmetic::div_mod::lemma_div_pos_is_pos(t, 2);
    vstd::arithmetic::div_mod::lemma_div_is_ordered(t, 65536, 2);
    assert(fx_mul_s(32768, t) == t / 2);

    // Halving takes at most half of one away from t.
    vstd::arithmetic::div_mod::lemma_fundamental_div_mod(t, 2);
    assert(t - t / 2 <= 32768);

    // The green channel contribution sits between t / 2 and t.
    assert(32768 * t <= 45875 * t && 45875 * t <= 65536 * t && 45875 * t >= 0)
        by (nonlinear_arith)
        requires
            t >= 0;
    vstd::arithmetic::div_mod::lemma_div_is_ordered(32768 * t, 45875 * t, 65536);
    vstd::arithmetic::div_mod::lemma_div_is_ordered(45875 * t, 65536 * t, 65536);
    vstd::arithmetic::div_mod::lemma_div_pos_is_pos(45875 * t, 65536);
    assert(tdiv_s(45875 * t, FX_ONE as int) == (45875 * t) / 65536);
    assert(t / 2 <= (45875 * t) / 65536 <= t);
    assert(fx_mul_s(45875, t) == (45875 * t) / 65536);
}

} // verus!
