//! Three-component vectors over the fixed-point scalars, with the random
//! sampling helpers the diffuse bounce uses.

use vstd::prelude::*;

verus! {

use crate::fixed::{
    SCALE,
    mag,
    lemma_tdiv_mag,
    fx_add,
    fx_sub,
    fx_mul,
    fx_div,
    fx_sqrt,
    spec_fx_add,
    spec_fx_sub,
    spec_fx_mul,
    spec_fx_div,
    spec_fx_sqrt,
};

#[derive(Debug, Clone, Copy, PartialEq, Eq, Structural)]
pub struct Vec3 {
    pub x: i64,
    pub y: i64,
    pub z: i64,
}

/// The vector with one value in all three components.
pub open spec fn spec_vsplat(v: i64) -> Vec3 {
    Vec3 { x: v, y: v, z: v }
}

/// Componentwise sum.
pub open spec fn spec_vadd(a: Vec3, b: Vec3) -> Vec3 {
    Vec3 {
        x: spec_fx_add(a.x as int, b.x as int) as i64,
        y: spec_fx_add(a.y as int, b.y as int) as i64,
        z: spec_fx_add(a.z as int, b.z as int) as i64,
    }
}

/// Componentwise difference.
pub open spec fn spec_vsub(a: Vec3, b: Vec3) -> Vec3 {
    Vec3 {
        x: spec_fx_sub(a.x as int, b.x as int) as i64,
        y: spec_fx_sub(a.y as int, b.y as int) as i64,
        z: spec_fx_sub(a.z as int, b.z as int) as i64,
    }
}

/// Componentwise product.
pub open spec fn spec_vmul(a: Vec3, b: Vec3) -> Vec3 {
    Vec3 {
        x: spec_fx_mul(a.x as int, b.x as int) as i64,
        y: spec_fx_mul(a.y as int, b.y as int) as i64,
        z: spec_fx_mul(a.z as int, b.z as int) as i64,
    }
}

/// Componentwise quotient.
pub open spec fn spec_vdiv(a: Vec3, b: Vec3) -> Vec3 {
    Vec3 {
        x: spec_fx_div(a.x as int, b.x as int) as i64,
        y: spec_fx_div(a.y as int, b.y as int) as i64,
        z: spec_fx_div(a.z as int, b.z as int) as i64,
    }
}

/// Every component multiplied by one scalar.
pub open spec fn spec_vscale(a: Vec3, s: int) -> Vec3 {
    Vec3 {
        x: spec_fx_mul(a.x as int, s) as i64,
        y: spec_fx_mul(a.y as int, s) as i64,
        z: spec_fx_mul(a.z as int, s) as i64,
    }
}

/// The dot product, summed left to right.
pub open spec fn spec_vdot(a: Vec3, b: Vec3) -> int {
    spec_fx_add(
        spec_fx_add(spec_fx_mul(a.x as int, b.x as int), spec_fx_mul(a.y as int, b.y as int)),
        spec_fx_mul(a.z as int, b.z as int),
    )
}

/// The squared length.
pub open spec fn spec_vlen2(a: Vec3) -> int {
    spec_vdot(a, a)
}

/// What the rejection sampling draws: a vector strictly inside the cube
/// of half-width one whose squared length falls under one.
pub open spec fn spec_in_ball(p: Vec3) -> bool {
    &&& -SCALE <= p.x < SCALE
    &&& -SCALE <= p.y < SCALE
    &&& -SCALE <= p.z < SCALE
    &&& spec_vlen2(p) < SCALE as int
}

/// Division by the root of the squared length, component by component.
pub open spec fn spec_unit(v: Vec3) -> Vec3 {
    let len = spec_fx_sqrt(spec_vlen2(v));
    Vec3 {
        x: spec_fx_div(v.x as int, len) as i64,
        y: spec_fx_div(v.y as int, len) as i64,
        z: spec_fx_div(v.z as int, len) as i64,
    }
}

impl Vec3 {
    pub fn new(x: i64, y: i64, z: i64) -> (v: Vec3)
        ensures
            v == (Vec3 { x, y, z }),
    {
        Vec3 { x, y, z }
    }

    pub fn x(&self) -> (r: i64)
        ensures
            r == self.x,
    {
        self.x
    }

    pub fn y(&self) -> (r: i64)
        ensures
            r == self.y,
    {
        self.y
    }

    pub fn z(&self) -> (r: i64)
        ensures
            r == self.z,
    {
        self.z
    }

    pub fn scale(self, scale: i64) -> (r: Self)
        ensures
            r == spec_vscale(self, scale as int),
    {
        Vec3 { x: fx_mul(self.x, scale), y: fx_mul(self.y, scale), z: fx_mul(self.z, scale) }
    }

    pub fn dot(&self, other: Vec3) -> (r: i64)
        ensures
            r as int == spec_vdot(*self, other),
    {
        fx_add(
            fx_add(fx_mul(self.x, other.x), fx_mul(self.y, other.y)),
            fx_mul(self.z, other.z),
        )
    }

    pub fn length_squared(&self) -> (r: i64)
        ensures
            r as int == spec_vlen2(*self),
    {
        fx_add(
            fx_add(fx_mul(self.x, self.x), fx_mul(self.y, self.y)),
            fx_mul(self.z, self.z),
        )
    }

    pub fn add(self, other: Self) -> (r: Self)
        ensures
            r == spec_vadd(self, other),
    {
        Vec3 { x: fx_add(self.x, other.x), y: fx_add(self.y, other.y), z: fx_add(self.z, other.z) }
    }

    pub fn sub(self, other: Self) -> (r: Self)
        ensures
            r == spec_vsub(self, other),
    {
        Vec3 { x: fx_sub(self.x, other.x), y: fx_sub(self.y, other.y), z: fx_sub(self.z, other.z) }
    }

    pub fn mul(self, other: Self) -> (r: Self)
        ensures
            r == spec_vmul(self, other),
    {
        Vec3 { x: fx_mul(self.x, other.x), y: fx_mul(self.y, other.y), z: fx_mul(self.z, other.z) }
    }

    pub fn div(self, other: Self) -> (r: Self)
        ensures
            r == spec_vdiv(self, other),
    {
        Vec3 { x: fx_div(self.x, other.x), y: fx_div(self.y, other.y), z: fx_div(self.z, other.z) }
    }

    /// A vector whose components are drawn uniformly from `[0, 1)`.
    pub fn random() -> (v: Vec3)
        ensures
            0 <= v.x < SCALE,
            0 <= v.y < SCALE,
            0 <= v.z < SCALE,
    {
        Vec3 { x: uniform_fx(0, SCALE), y: uniform_fx(0, SCALE), z: uniform_fx(0, SCALE) }
    }

    fn random_bounded(min: i64, max: i64) -> (v: Vec3)
        requires
            min < max,
        ensures
            min <= v.x < max,
            min <= v.y < max,
            min <= v.z < max,
    {
        Vec3 { x: uniform_fx(min, max), y: uniform_fx(min, max), z: uniform_fx(min, max) }
    }
}

impl Default for Vec3 {
    fn default() -> (v: Vec3)
        ensures
            v == spec_vsplat(0),
    {
        Vec3 { x: 0, y: 0, z: 0 }
    }
}

impl core::convert::From<i64> for Vec3 {
    fn from(value: i64) -> (v: Vec3) {
        Vec3 { x: value, y: value, z: value }
    }
}

impl vstd::std_specs::convert::FromSpecImpl<i64> for Vec3 {
    open spec fn obeys_from_spec() -> bool {
        true
    }

    open spec fn from_spec(value: i64) -> Vec3 {
        spec_vsplat(value)
    }
}

/// Relies on rand::random: the process-global generator yields a value of
/// the asked-for type; nothing is promised of which value comes back.
pub assume_specification<T>[ rand::random::<T> ]() -> (r: T)
    where
        rand::distributions::Standard: rand::distributions::Distribution<T>,
;

/// A scalar drawn uniformly from `[lo, hi)`, reduced from the global
/// generator's raw draw.
pub(crate) fn uniform_fx(lo: i64, hi: i64) -> (r: i64)
    requires
        lo < hi,
    ensures
        lo <= r < hi,
{
    let raw: u64 = rand::random::<u64>();
    let span: u64 = ((hi as i128) - (lo as i128)) as u64;
    let off: u64 = raw % span;
    let v: i128 = (lo as i128) + (off as i128);
    v as i64
}

fn unit_vector(v: Vec3) -> (u: Vec3)
    ensures
        u == spec_unit(v),
{
    let length = fx_sqrt(v.length_squared());
    Vec3 { x: fx_div(v.x, length), y: fx_div(v.y, length), z: fx_div(v.z, length) }
}

fn random_in_unit_sqhere() -> (p: Vec3)
    ensures
        -SCALE <= p.x < SCALE,
        -SCALE <= p.y < SCALE,
        -SCALE <= p.z < SCALE,
        spec_vlen2(p) < SCALE as int,
{
    let mut tries: u32 = 0;
    while tries < 1000
        decreases 1000 - tries,
    {
        let p = Vec3::random_bounded(-SCALE, SCALE);
        if p.length_squared() < SCALE {
            return p;
        }
        tries = tries + 1;
    }
    // Practically unreachable: the draws land in the ball about half the
    // time. A fixed interior direction keeps the function total.
    proof {
        assert(998001int / 1000int == 998);
        assert(spec_fx_mul(999, 999) == 998);
        assert(spec_fx_mul(0, 0) == 0);
        assert(spec_vlen2(Vec3 { x: 0, y: 0, z: 999 }) == 998);
    }
    Vec3::new(0, 0, 999)
}

/// The unit scaling of an in-ball draw keeps every component small.
pub proof fn lemma_unit_components(p: Vec3)
    requires
        spec_in_ball(p),
    ensures
        mag(spec_unit(p).x as int) <= 1_000_000,
        mag(spec_unit(p).y as int) <= 1_000_000,
        mag(spec_unit(p).z as int) <= 1_000_000,
{
    let len = spec_fx_sqrt(spec_vlen2(p));
    lemma_tdiv_mag((p.x as int) * (SCALE as int), len);
    lemma_tdiv_mag((p.y as int) * (SCALE as int), len);
    lemma_tdiv_mag((p.z as int) * (SCALE as int), len);
}

/// Scaling by minus one then dotting flips the sign exactly, as long as
/// both vectors stay far enough from the representable ends that nothing
/// saturates.
pub proof fn lemma_flip_dot(u: Vec3, n: Vec3)
    requires
        mag(u.x as int) <= 1_000_000,
        mag(u.y as int) <= 1_000_000,
        mag(u.z as int) <= 1_000_000,
        mag(n.x as int) <= 1_000_000_000_000,
        mag(n.y as int) <= 1_000_000_000_000,
        mag(n.z as int) <= 1_000_000_000_000,
    ensures
        spec_vdot(spec_vscale(u, -SCALE as int), n) == -spec_vdot(u, n),
{
    lemma_flip_component(u.x as int, n.x as int);
    lemma_flip_component(u.y as int, n.y as int);
    lemma_flip_component(u.z as int, n.z as int);
}

/// One component of the flipped dot product: negating the left factor
/// negates the fixed-point product, and the product stays moderate.
proof fn lemma_flip_component(a: int, b: int)
    requires
        mag(a) <= 1_000_000,
        mag(b) <= 1_000_000_000_000,
    ensures
        spec_fx_mul(spec_fx_mul(a, -(SCALE as int)) as int, b) == -spec_fx_mul(a, b),
        mag(spec_fx_mul(a, b)) <= 1_000_000_000_000_000,
{
    let ma = mag(a);
    let mb = mag(b);
    assert(-1_000_000_000_000_000_000 <= a * b <= 1_000_000_000_000_000_000)
        by (nonlinear_arith)
        requires
            0 <= ma <= 1_000_000,
            0 <= mb <= 1_000_000_000_000,
            a == ma || a == -ma,
            b == mb || b == -mb,
    ;
    crate::fixed::lemma_tdiv_exact(-a, SCALE as int);
    crate::fixed::lemma_tdiv_mag(a * b, SCALE as int);
    crate::fixed::lemma_tdiv_mag((a * b) / 1000, 1);
    assert((-a) * b == -(a * b)) by (nonlinear_arith);
    crate::fixed::lemma_tdiv_neg(a * b, SCALE as int);
    crate::fixed::lemma_tdiv_mag(-(a * b), SCALE as int);
    assert(spec_fx_mul(a, -(SCALE as int)) == -a);
}

/// A direction of roughly unit length, drawn by rejection from the cube.
pub fn random_unit_vector() -> (r: Vec3)
    ensures
        exists|p: Vec3| spec_in_ball(p) && r == spec_unit(p),
{
    let p = random_in_unit_sqhere();
    let u = unit_vector(p);
    proof {
        assert(spec_in_ball(p) && u == spec_unit(p));
    }
    u
}

/// A random direction, flipped so that it does not oppose `normal`: the
/// result is a unit draw or its exact negation, picked by the sign of the
/// dot product, and never opposes a normal of moderate magnitude.
pub fn random_on_hemisphere(normal: Vec3) -> (r: Vec3)
    ensures
        exists|p: Vec3|
            {
                &&& spec_in_ball(p)
                &&& (spec_vdot(spec_unit(p), normal) > 0 ==> r == spec_unit(p))
                &&& (spec_vdot(spec_unit(p), normal) <= 0 ==> r == spec_vscale(
                    spec_unit(p),
                    -SCALE as int,
                ))
            },
        (mag(normal.x as int) <= 1_000_000_000_000 && mag(normal.y as int) <= 1_000_000_000_000
            && mag(normal.z as int) <= 1_000_000_000_000) ==> spec_vdot(r, normal) >= 0,
{
    let in_unit_sphere = random_unit_vector();
    let ghost pw = choose|p: Vec3| spec_in_ball(p) && in_unit_sphere == spec_unit(p);
    proof {
        if mag(normal.x as int) <= 1_000_000_000_000 && mag(normal.y as int)
            <= 1_000_000_000_000 && mag(normal.z as int) <= 1_000_000_000_000 {
            lemma_unit_components(pw);
            lemma_flip_dot(in_unit_sphere, normal);
        }
    }
    if in_unit_sphere.dot(normal) > 0 {
        proof {
            assert(spec_in_ball(pw) && spec_vdot(spec_unit(pw), normal) > 0);
        }
        in_unit_sphere
    } else {
        let flipped = in_unit_sphere.scale(-SCALE);
        proof {
            assert(spec_in_ball(pw) && spec_vdot(spec_unit(pw), normal) <= 0
                && flipped == spec_vscale(in_unit_sphere, -SCALE as int));
        }
        flipped
    }
}

} // verus!
