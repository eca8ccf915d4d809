//! The scene: an ordered collection of primitives, the nearest-hit scan
//! over them, and the recursive shading that turns a ray into a color.

use vstd::prelude::*;

verus! {

use crate::fixed::{SCALE, fx_add, fx_sub, fx_mul, spec_fx_add, spec_fx_sub, spec_fx_mul};
use crate::vec3::{
    Vec3,
    random_unit_vector,
    spec_in_ball,
    spec_unit,
    spec_vadd,
    spec_vmul,
    spec_vsplat,
};
use crate::ray::Ray;
use crate::interval::Interval;
use crate::geometry::{HitRecord, Hittable};
use crate::camera::Renderable;

/// The flat reflectance every surface keeps after one bounce.
pub const ALBEDO: i64 = 100;

/// Whether any of the primitives reports a hit for this ray over this
/// interval.
pub open spec fn spec_any_hit<T: Hittable>(
    objects: Seq<T>,
    ray: Ray,
    interval: Interval,
) -> bool {
    exists|i: int|
        0 <= i < objects.len() && (#[trigger] objects[i].hit_spec(ray, interval)) is Some
}

/// `rec` is a hit some primitive reports, and no primitive reports a
/// nearer one.
pub open spec fn spec_is_closest_hit<T: Hittable>(
    objects: Seq<T>,
    ray: Ray,
    interval: Interval,
    rec: HitRecord,
) -> bool {
    &&& exists|i: int|
        0 <= i < objects.len() && (#[trigger] objects[i].hit_spec(ray, interval)) == Some(rec)
    &&& forall|i: int|
        0 <= i < objects.len() ==> match #[trigger] objects[i].hit_spec(ray, interval) {
            Some(r) => rec.t <= r.t,
            None => true,
        }
}

/// The vertical gradient between white and sky blue, driven by the ray
/// direction's raw vertical component. The direction goes in as it is:
/// the componentwise "normalization" the renderer applies is the
/// identity, and is kept so deliberately.
pub open spec fn spec_background(direction: Vec3) -> Vec3 {
    let a = spec_fx_mul(500, spec_fx_add(direction.y as int, SCALE as int));
    spec_vadd(
        spec_vmul(spec_vsplat(spec_fx_sub(SCALE as int, a) as i64), spec_vsplat(SCALE)),
        spec_vmul(spec_vsplat(a as i64), Vec3 { x: 500, y: 700, z: 1000 }),
    )
}

/// Everything the shading function promises of its result: black once the
/// bounce budget is spent, the exact background on a miss, and otherwise
/// the attenuation of a color that itself satisfies this account for a
/// scatter ray leaving the nearest hit point along the normal plus the
/// unit scaling of some in-ball draw.
pub open spec fn spec_render_ok<T: Hittable>(
    objects: Seq<T>,
    ray: Ray,
    depth: int,
    interval: Interval,
    color: Vec3,
) -> bool
    decreases depth,
{
    &&& depth == 0 ==> color == spec_vsplat(0)
    &&& (depth > 0 && !spec_any_hit(objects, ray, interval)) ==> color == spec_background(
        ray.direction,
    )
    &&& (depth > 0 && spec_any_hit(objects, ray, interval)) ==> exists|
        r: HitRecord,
        p: Vec3,
        sub: Vec3,
    |
        spec_is_closest_hit(objects, ray, interval, r) && spec_in_ball(p) && spec_render_ok(
            objects,
            Ray { origin: r.p, direction: spec_vadd(r.normal, spec_unit(p)) },
            depth - 1,
            interval,
            sub,
        ) && color == spec_vmul(spec_vsplat(ALBEDO), sub)
}

#[derive(Debug, Clone)]
pub struct World<T: Hittable> {
    pub objects: Vec<T>,
}

impl<T: Hittable> World<T> {
    pub fn new(objects: Vec<T>) -> (w: World<T>)
        ensures
            w.objects == objects,
    {
        World { objects }
    }

    /// Scan every primitive with a shrinking interval; what is left in
    /// `rec` is the globally nearest hit of the whole collection.
    pub fn hit(&self, ray: &Ray, interval: Interval, rec: &mut HitRecord) -> (b: bool)
        ensures
            b == spec_any_hit(self.objects@, *ray, interval),
            b ==> spec_is_closest_hit(self.objects@, *ray, interval, *final(rec)),
            !b ==> *final(rec) == *old(rec),
    {
        let mut hit_anything = false;
        let mut closest_so_far = interval.max();
        let n = self.objects.len();
        let mut idx: usize = 0;
        while idx < n
            invariant
                n == self.objects@.len(),
                idx <= n,
                closest_so_far <= interval.max,
                !hit_anything ==> closest_so_far == interval.max && *rec == *old(rec),
                !hit_anything ==> forall|i: int|
                    0 <= i < idx ==> (#[trigger] self.objects@[i].hit_spec(*ray, interval))
                        is None,
                hit_anything ==> closest_so_far == rec.t,
                hit_anything ==> exists|i: int|
                    0 <= i < idx && (#[trigger] self.objects@[i].hit_spec(*ray, interval))
                        == Some(*rec),
                hit_anything ==> forall|i: int|
                    0 <= i < idx ==> match #[trigger] self.objects@[i].hit_spec(*ray, interval) {
                        Some(r) => rec.t <= r.t,
                        None => true,
                    },
            decreases n - idx,
        {
            let object = &self.objects[idx];
            let narrowed = Interval::new(interval.min(), closest_so_far);
            if object.hit(ray, narrowed, rec) {
                proof {
                    object.lemma_hit_inside(*ray, narrowed);
                    object.lemma_hit_narrow(*ray, interval.min, interval.max, closest_so_far);
                }
                hit_anything = true;
                closest_so_far = rec.t();
            } else {
                proof {
                    object.lemma_hit_inside(*ray, interval);
                    object.lemma_hit_narrow(*ray, interval.min, interval.max, closest_so_far);
                }
            }
            idx = idx + 1;
        }
        hit_anything
    }
}

impl<T: Hittable> Renderable for World<T> {
    open spec fn render_spec(&self, ray: Ray, depth: u32, interval: Interval, color: Vec3) -> bool {
        spec_render_ok(self.objects@, ray, depth as int, interval, color)
    }

    fn render_pixel(&self, ray: &Ray, depth: u32, interval: Interval) -> (color: Vec3)
        decreases depth,
    {
        if depth == 0 {
            return Vec3::default();
        }
        let mut rec = HitRecord::default();
        let hit_anything = self.hit(ray, interval, &mut rec);

        let color: Vec3 = if hit_anything {
            let scatter = random_unit_vector();
            let ghost pw = choose|p: Vec3| spec_in_ball(p) && scatter == spec_unit(p);
            let direction = rec.normal().add(scatter);
            let bounce = Ray::new(rec.p(), direction);
            let sub = self.render_pixel(&bounce, depth - 1, interval);
            let attenuated = Vec3::from(ALBEDO).mul(sub);
            proof {
                assert(spec_is_closest_hit(self.objects@, *ray, interval, rec)
                    && spec_in_ball(pw)
                    && spec_render_ok(self.objects@, bounce, depth - 1, interval, sub)
                    && bounce == (Ray {
                        origin: rec.p,
                        direction: spec_vadd(rec.normal, spec_unit(pw)),
                    })
                    && attenuated == spec_vmul(spec_vsplat(ALBEDO), sub));
            }
            attenuated
        } else {
            // The raw direction, deliberately not normalized to unit length.
            let unit_direction = ray.direction();
            let a = fx_mul(500, fx_add(unit_direction.y(), SCALE));
            Vec3::from(fx_sub(SCALE, a)).mul(Vec3::from(SCALE)).add(
                Vec3::from(a).mul(Vec3::new(500, 700, 1000)),
            )
        };

        color
    }
}

/// Rearranging a scene's primitives never changes the distance of the
/// closest hit: any two scenes holding the same primitives, in whatever
/// order, resolve every ray to the same nearest distance.
pub proof fn lemma_nearest_hit_permutation_invariant<T: Hittable>(
    objs1: Seq<T>,
    objs2: Seq<T>,
    ray: Ray,
    interval: Interval,
    r1: HitRecord,
    r2: HitRecord,
)
    requires
        objs1.to_multiset() == objs2.to_multiset(),
        spec_is_closest_hit(objs1, ray, interval, r1),
        spec_is_closest_hit(objs2, ray, interval, r2),
    ensures
        r1.t == r2.t,
{
    objs1.to_multiset_ensures();
    objs2.to_multiset_ensures();

    let i1 = choose|i: int| 0 <= i < objs1.len() && objs1[i].hit_spec(ray, interval) == Some(r1);
    assert(objs1.contains(objs1[i1]));
    assert(objs2.to_multiset().count(objs1[i1]) > 0);
    assert(objs2.contains(objs1[i1]));
    let j1 = choose|i: int| 0 <= i < objs2.len() && objs2[i] == objs1[i1];
    assert(objs2[j1].hit_spec(ray, interval) == Some(r1));
    assert(r2.t <= r1.t);

    let i2 = choose|i: int| 0 <= i < objs2.len() && objs2[i].hit_spec(ray, interval) == Some(r2);
    assert(objs2.contains(objs2[i2]));
    assert(objs1.to_multiset().count(objs2[i2]) > 0);
    assert(objs1.contains(objs2[i2]));
    let j2 = choose|i: int| 0 <= i < objs1.len() && objs1[i] == objs2[i2];
    assert(objs1[j2].hit_spec(ray, interval) == Some(r2));
    assert(r1.t <= r2.t);
}

/// Two primitives both struck along one ray: the scene's closest hit has
/// the nearer of the two distances, whichever order they were inserted in.
pub proof fn lemma_nearest_hit_order_independent<T: Hittable>(
    a: T,
    b: T,
    ray: Ray,
    interval: Interval,
    ra: HitRecord,
    rb: HitRecord,
    r_ab: HitRecord,
    r_ba: HitRecord,
)
    requires
        a.hit_spec(ray, interval) == Some(ra),
        b.hit_spec(ray, interval) == Some(rb),
        spec_is_closest_hit(seq![a, b], ray, interval, r_ab),
        spec_is_closest_hit(seq![b, a], ray, interval, r_ba),
    ensures
        r_ab.t == r_ba.t,
        r_ab.t == if ra.t <= rb.t {
            ra.t
        } else {
            rb.t
        },
{
    assert(seq![a, b][0] == a && seq![a, b][1] == b);
    assert(seq![b, a][0] == b && seq![b, a][1] == a);
    assert(seq![a, b][0].hit_spec(ray, interval) == Some(ra));
    assert(seq![a, b][1].hit_spec(ray, interval) == Some(rb));
    assert(seq![b, a][0].hit_spec(ray, interval) == Some(rb));
    assert(seq![b, a][1].hit_spec(ray, interval) == Some(ra));
}

} // verus!
