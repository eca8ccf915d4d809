//! The intersection capability and its one primitive, the sphere.
//!
//! `Hittable` packages three things: an exact mathematical account of what
//! `hit` reports, a proof that a reported distance lies strictly inside the
//! interval asked for, and a proof of how the report changes when the far
//! end of the interval is pulled in. The last one is what lets the scene
//! scan (see the world module) resolve the globally nearest hit by
//! progressive narrowing.

use vstd::prelude::*;

verus! {

use crate::fixed::{
    SCALE,
    fx_add,
    fx_sub,
    fx_mul,
    fx_div,
    fx_sqrt,
    spec_fx_add,
    spec_fx_sub,
    spec_fx_mul,
    spec_fx_div,
    spec_fx_sqrt,
    lemma_fx_square_nonneg,
    lemma_isqrt_nonneg,
    lemma_tdiv_monotone,
};
use crate::vec3::{Vec3, spec_vsub, spec_vmul, spec_vsplat, spec_vscale, spec_vdot, spec_vlen2};
use crate::ray::{Ray, spec_ray_at};
use crate::interval::{Interval, spec_surrounds};
use vstd::arithmetic::div_mod::{
    lemma_fundamental_div_mod,
    lemma_fundamental_div_mod_converse,
    lemma_div_nonincreasing,
    lemma_div_pos_is_pos,
    lemma_div_is_ordered,
};

#[derive(Debug, Clone, Copy, PartialEq, Eq, Structural)]
pub struct HitRecord {
    pub p: Vec3,
    pub normal: Vec3,
    pub t: i64,
    pub front_face: bool,
}

impl HitRecord {
    /// Orient `outward_normal` against the incoming ray and record which
    /// side was struck.
    pub fn set_face_normal(&mut self, ray: &Ray, outward_normal: Vec3)
        ensures
            final(self).t == old(self).t,
            final(self).p == old(self).p,
            final(self).front_face == (spec_vdot(ray.direction, outward_normal) < 0),
            final(self).normal == if spec_vdot(ray.direction, outward_normal) < 0 {
                outward_normal
            } else {
                spec_vmul(spec_vsplat((-SCALE) as i64), outward_normal)
            },
    {
        let front_face = ray.direction().dot(outward_normal) < 0;
        self.front_face = front_face;
        self.normal = if front_face {
            outward_normal
        } else {
            Vec3::from(-SCALE).mul(outward_normal)
        };
    }

    pub fn t(&self) -> (r: i64)
        ensures
            r == self.t,
    {
        self.t
    }

    pub fn p(&self) -> (r: Vec3)
        ensures
            r == self.p,
    {
        self.p
    }

    pub fn normal(&self) -> (r: Vec3)
        ensures
            r == self.normal,
    {
        self.normal
    }
}

impl Default for HitRecord {
    fn default() -> (r: HitRecord)
        ensures
            r.t == 0,
            r.p == spec_vsplat(0),
            r.normal == spec_vsplat(0),
            !r.front_face,
    {
        HitRecord { p: Vec3::new(0, 0, 0), normal: Vec3::new(0, 0, 0), t: 0, front_face: false }
    }
}

/// Something a ray can strike.
pub trait Hittable: Sized {
    /// What `hit` reports for this ray over this interval.
    spec fn hit_spec(&self, ray: Ray, interval: Interval) -> Option<HitRecord>;

    /// Test the ray against the primitive, with the parametric distance
    /// confined strictly inside `interval`. On a hit, fill `rec`; on a
    /// miss, leave it alone.
    fn hit(&self, ray: &Ray, interval: Interval, rec: &mut HitRecord) -> (b: bool)
        ensures
            match self.hit_spec(*ray, interval) {
                Some(r) => b && *final(rec) == r,
                None => !b && *final(rec) == *old(rec),
            },
    ;

    /// A reported distance lies strictly inside the interval asked for.
    proof fn lemma_hit_inside(&self, ray: Ray, interval: Interval)
        ensures
            match self.hit_spec(ray, interval) {
                Some(r) => interval.min < r.t && r.t < interval.max,
                None => true,
            },
    ;

    /// Pulling the far end of the interval in keeps a hit that still lies
    /// inside, and discards everything else; a miss stays a miss.
    proof fn lemma_hit_narrow(&self, ray: Ray, lo: i64, hi_wide: i64, hi_narrow: i64)
        requires
            hi_narrow <= hi_wide,
        ensures
            match self.hit_spec(ray, Interval::spec_new(lo, hi_wide)) {
                Some(r) => (r.t < hi_narrow ==> self.hit_spec(
                    ray,
                    Interval::spec_new(lo, hi_narrow),
                ) == Some(r)) && (r.t >= hi_narrow ==> self.hit_spec(
                    ray,
                    Interval::spec_new(lo, hi_narrow),
                ) is None),
                None => self.hit_spec(ray, Interval::spec_new(lo, hi_narrow)) is None,
            },
    ;
}

#[derive(Debug, Clone, Copy, PartialEq, Eq, Structural)]
pub struct Sphere {
    pub center: Vec3,
    pub radius: i64,
}

impl Sphere {
    pub fn new(center: Vec3, radius: i64) -> (s: Sphere)
        ensures
            s == (Sphere { center, radius }),
    {
        Sphere { center, radius }
    }

    /// The quadratic's leading coefficient: the direction's squared length.
    pub open spec fn spec_a(self, ray: Ray) -> int {
        spec_vlen2(ray.direction)
    }

    /// Half the quadratic's middle coefficient.
    pub open spec fn spec_half_b(self, ray: Ray) -> int {
        spec_vdot(spec_vsub(ray.origin, self.center), ray.direction)
    }

    /// The quadratic's constant term.
    pub open spec fn spec_c(self, ray: Ray) -> int {
        spec_fx_sub(
            spec_vlen2(spec_vsub(ray.origin, self.center)),
            spec_fx_mul(self.radius as int, self.radius as int),
        )
    }

    /// The half-b discriminant; negative exactly when the ray's line
    /// misses the sphere.
    pub open spec fn spec_disc(self, ray: Ray) -> int {
        spec_fx_sub(
            spec_fx_mul(self.spec_half_b(ray), self.spec_half_b(ray)),
            spec_fx_mul(self.spec_a(ray), self.spec_c(ray)),
        )
    }

    pub open spec fn spec_sqrtd(self, ray: Ray) -> int {
        spec_fx_sqrt(self.spec_disc(ray))
    }

    /// The smaller quadratic root.
    pub open spec fn spec_root1(self, ray: Ray) -> int {
        spec_fx_div(
            spec_fx_sub(spec_fx_sub(0, self.spec_half_b(ray)), self.spec_sqrtd(ray)),
            self.spec_a(ray),
        )
    }

    /// The larger quadratic root.
    pub open spec fn spec_root2(self, ray: Ray) -> int {
        spec_fx_div(
            spec_fx_add(spec_fx_sub(0, self.spec_half_b(ray)), self.spec_sqrtd(ray)),
            self.spec_a(ray),
        )
    }

    /// The record a hit at distance `root` carries.
    pub open spec fn spec_record(self, ray: Ray, root: i64) -> HitRecord {
        let p = spec_ray_at(ray, root as int);
        let outward = spec_vscale(
            spec_vsub(p, self.center),
            spec_fx_div(SCALE as int, self.radius as int),
        );
        let front = spec_vdot(ray.direction, outward) < 0;
        HitRecord {
            p,
            normal: if front {
                outward
            } else {
                spec_vmul(spec_vsplat((-SCALE) as i64), outward)
            },
            t: root,
            front_face: front,
        }
    }
}

/// The two roots come ordered, the leading coefficient and the root of the
/// discriminant are never negative.
proof fn lemma_sphere_shape(s: Sphere, ray: Ray)
    ensures
        0 <= s.spec_a(ray),
        0 <= s.spec_sqrtd(ray),
        s.spec_root1(ray) <= s.spec_root2(ray),
{
    let d = ray.direction;
    lemma_fx_square_nonneg(d.x as int);
    lemma_fx_square_nonneg(d.y as int);
    lemma_fx_square_nonneg(d.z as int);
    let disc = s.spec_disc(ray);
    if disc > 0 {
        lemma_isqrt_nonneg(disc * SCALE);
    }
    let hb = s.spec_half_b(ray);
    let sq = s.spec_sqrtd(ray);
    let n = spec_fx_sub(0, hb);
    let num1 = spec_fx_sub(n, sq);
    let num2 = spec_fx_add(n, sq);
    assert(num1 <= num2);
    let a = s.spec_a(ray);
    assert(num1 * SCALE <= num2 * SCALE) by (nonlinear_arith)
        requires
            num1 <= num2,
            SCALE == 1000,
    ;
    lemma_tdiv_monotone(num1 * SCALE, num2 * SCALE, a);
}

impl Hittable for Sphere {
    open spec fn hit_spec(&self, ray: Ray, interval: Interval) -> Option<HitRecord> {
        if self.spec_disc(ray) < 0 {
            None
        } else if spec_surrounds(interval, self.spec_root1(ray) as i64) {
            Some(self.spec_record(ray, self.spec_root1(ray) as i64))
        } else if spec_surrounds(interval, self.spec_root2(ray) as i64) {
            Some(self.spec_record(ray, self.spec_root2(ray) as i64))
        } else {
            None
        }
    }

    fn hit(&self, ray: &Ray, interval: Interval, rec: &mut HitRecord) -> (b: bool) {
        let oc = ray.origin().sub(self.center);
        let a = ray.direction().length_squared();
        let half_b = oc.dot(ray.direction());
        let c = fx_sub(oc.length_squared(), fx_mul(self.radius, self.radius));
        let discriminant = fx_sub(fx_mul(half_b, half_b), fx_mul(a, c));
        if discriminant < 0 {
            return false;
        }
        let sqrtd = fx_sqrt(discriminant);
        let neg_half_b = fx_sub(0, half_b);
        let mut root = fx_div(fx_sub(neg_half_b, sqrtd), a);
        if !interval.surrounds(root) {
            root = fx_div(fx_add(neg_half_b, sqrtd), a);
            if !interval.surrounds(root) {
                return false;
            }
        }
        rec.t = root;
        rec.p = ray.at(root);
        let outward = rec.p().sub(self.center).scale(fx_div(SCALE, self.radius));
        rec.set_face_normal(ray, outward);
        true
    }

    proof fn lemma_hit_inside(&self, ray: Ray, interval: Interval) {
    }

    proof fn lemma_hit_narrow(&self, ray: Ray, lo: i64, hi_wide: i64, hi_narrow: i64) {
        lemma_sphere_shape(*self, ray);
    }
}

/// A ray fired straight down the axis at a sphere's center from outside
/// strikes it at the distance to the center less the radius, with the
/// normal pointing back along the axis toward the ray's origin, on the
/// outward face. Exactness asks the radius to divide the scale's square
/// and its square to be a multiple of the scale, and the scene to stay
/// inside moderate bounds; outside those, rounding shifts the distance.
pub proof fn lemma_axial_hit(ray: Ray, s: Sphere, dist: i64)
    requires
        ray.direction == (Vec3 { x: 0, y: 0, z: (-1000) as i64 }),
        s.center.x == ray.origin.x,
        s.center.y == ray.origin.y,
        s.center.z as int == ray.origin.z - dist,
        0 < s.radius,
        s.radius < dist,
        dist <= 2_000_000_000,
        (s.radius as int) * (s.radius as int) % 1000 == 0,
        1_000_000int % (s.radius as int) == 0,
        -1_000_000_000_000 <= ray.origin.z,
        ray.origin.z <= 1_000_000_000_000,
    ensures
        s.hit_spec(ray, Interval::spec_new(0, crate::interval::POS_INF)) == Some(
            HitRecord {
                p: Vec3 {
                    x: ray.origin.x,
                    y: ray.origin.y,
                    z: (ray.origin.z - (dist - s.radius)) as i64,
                },
                normal: Vec3 { x: 0, y: 0, z: 1000 },
                t: (dist - s.radius) as i64,
                front_face: true,
            },
        ),
{
    let dz = dist as int;
    let r = s.radius as int;
    let oz = ray.origin.z as int;
    let iv = Interval::spec_new(0, crate::interval::POS_INF);

    let oc = spec_vsub(ray.origin, s.center);
    assert(oc == (Vec3 { x: 0, y: 0, z: dist }));

    // the quadratic's coefficients
    lemma_fundamental_div_mod_converse(1000000, 1000, 1000, 0);
    assert(spec_fx_mul(0, 0) == 0);
    assert(spec_fx_mul(0, -1000) == 0);
    assert(spec_fx_mul(-1000, -1000) == 1000);
    assert(s.spec_a(ray) == 1000);

    crate::fixed::lemma_tdiv_exact(-dz, 1000);
    assert(spec_fx_mul(dz, -1000) == -dz);
    assert(s.spec_half_b(ray) == -dz);

    assert(dz * dz <= 4_000_000_000_000_000_000) by (nonlinear_arith)
        requires
            0 < dz <= 2_000_000_000,
    ;
    let q = (dz * dz) / 1000;
    lemma_div_nonincreasing(dz * dz, 1000);
    lemma_div_pos_is_pos(dz * dz, 1000);
    assert(spec_fx_mul(dz, dz) == q);

    let k = (r * r) / 1000;
    lemma_fundamental_div_mod(r * r, 1000);
    assert(r * r == 1000 * k);
    assert(0 < r * r && r * r <= dz * dz) by (nonlinear_arith)
        requires
            0 < r < dz,
    ;
    lemma_div_pos_is_pos(r * r, 1000);
    lemma_div_is_ordered(r * r, dz * dz, 1000);
    assert(1 <= k) by {
        if k < 1 {
            assert(r * r < 1000);
        }
    }
    assert(spec_fx_mul(r, r) == k);
    assert(s.spec_c(ray) == q - k);

    // discriminant and its root
    assert((-dz) * (-dz) == dz * dz) by (nonlinear_arith);
    assert(spec_fx_mul(-dz, -dz) == q);
    crate::fixed::lemma_tdiv_exact(q - k, 1000);
    assert(spec_fx_mul(1000, q - k) == q - k);
    assert(s.spec_disc(ray) == k);

    assert(r * r < (r + 1) * (r + 1)) by (nonlinear_arith)
        requires
            0 < r,
    ;
    crate::fixed::lemma_isqrt_unique(r * r, r);
    assert(k * 1000 == r * r);
    assert(s.spec_sqrtd(ray) == r);

    // the smaller root is the reported distance
    let t = dz - r;
    assert(spec_fx_sub(0, -dz) == dz);
    assert(spec_fx_sub(dz, r) == t);
    crate::fixed::lemma_tdiv_exact(t, 1000);
    assert(s.spec_root1(ray) == t);
    assert(spec_surrounds(iv, t as i64));
    assert(s.hit_spec(ray, iv) == Some(s.spec_record(ray, t as i64)));

    // the record's fields
    let p = spec_ray_at(ray, t);
    crate::fixed::lemma_tdiv_exact(-t, 1000);
    assert(spec_fx_mul(-1000, t) == -t);
    assert(p == (Vec3 { x: ray.origin.x, y: ray.origin.y, z: (oz - t) as i64 }));

    let m = 1000000int / r;
    lemma_fundamental_div_mod(1000000, r);
    lemma_div_pos_is_pos(1000000, r);
    lemma_div_nonincreasing(1000000, r);
    assert(1000000int == r * m);
    assert(spec_fx_div(1000, r) == m);
    assert(spec_vsub(p, s.center) == (Vec3 { x: 0, y: 0, z: s.radius }));
    assert(r * m == m * r) by (nonlinear_arith);
    assert(spec_fx_mul(r, m) == 1000);
    assert(0 * m == 0) by (nonlinear_arith);
    assert(spec_fx_mul(0, m) == 0);
    let outward = spec_vscale(spec_vsub(p, s.center), m);
    assert(outward == (Vec3 { x: 0, y: 0, z: 1000 }));

    assert(spec_fx_mul(-1000, 1000) == -1000);
    assert(spec_vdot(ray.direction, outward) == -1000);
    assert(s.spec_record(ray, t as i64) == (HitRecord {
        p: Vec3 { x: ray.origin.x, y: ray.origin.y, z: (oz - t) as i64 },
        normal: Vec3 { x: 0, y: 0, z: 1000 },
        t: t as i64,
        front_face: true,
    }));
}

/// A ray whose line passes the center farther than the radius reports no
/// hit, whatever the interval: in half-b form, the squared middle
/// coefficient staying under the product of the other two is exactly a
/// negative discriminant.
pub proof fn lemma_sphere_miss(s: Sphere, ray: Ray, interval: Interval)
    requires
        spec_fx_mul(s.spec_half_b(ray), s.spec_half_b(ray)) < spec_fx_mul(
            s.spec_a(ray),
            s.spec_c(ray),
        ),
    ensures
        s.hit_spec(ray, interval) is None,
{
}

} // verus!
