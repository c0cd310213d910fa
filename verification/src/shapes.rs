//! The intersection protocol, the sphere primitive, and the scene list.
//!
//! A shape reports a hit only when the intersection distance lies in the
//! closed interval `[t_min, t_max]`.  The scene list folds over its members
//! and keeps the hit with the smallest distance.

use crate::fixed::{
    fdiv, fmul, fp_abs, fsqrt, lemma_fdiv_le, lemma_fmul_le, lemma_sqrt_bound, mul_fp, sqrt_fp,
    SCALE,
};
use crate::ray::{ray_at3, Ray};
use crate::vec3::{
    bounded3, dot3, lemma_dot3_le, lemma_dot3_self_nonneg, neg3, sdiv3, sub3, v3, vec_of3, Vec3,
};
use vstd::prelude::*;

verus! {

/// Magnitude bound on the coordinates an intersection test accepts: ray
/// origin and direction, sphere center and radius, and the distance window.
pub const HIT_MAX: i64 = 0x2000000;

/// Which side of the surface a ray struck.
#[derive(Clone, Copy, Debug, PartialEq, Eq, Structural)]
pub enum HitFace {
    Front,
    Back,
}

/// The record of one successful intersection.
#[derive(Clone, Copy, Debug, PartialEq, Eq, Structural)]
pub struct HitPoint {
    /// The point of contact.
    pub point: Vec3,
    /// The surface normal at the contact point, flipped to oppose the ray.
    pub normal: Vec3,
    /// The ray parameter at which contact occurs.
    pub t: i64,
    /// Whether the outward or the inward side was struck.
    pub face: HitFace,
}

/// The outcome of an intersection test.
#[derive(Clone, Copy, Debug, PartialEq, Eq, Structural)]
pub enum HitResult {
    NoHit,
    Hit(HitPoint),
}

/// Anything a ray can be tested against.  `hit_spec` is the implementor's
/// exact mathematical answer and `hit_req` its precondition; the executable
/// `hit` must return exactly `hit_spec`.
pub trait Hittable: Sized {
    spec fn hit_req(&self, r: Ray, t_min: i64, t_max: i64) -> bool;

    spec fn hit_spec(&self, r: Ray, t_min: i64, t_max: i64) -> HitResult;

    fn hit(&self, ray: &Ray, t_min: i64, t_max: i64) -> (res: HitResult)
        requires
            self.hit_req(*ray, t_min, t_max),
        ensures
            res == self.hit_spec(*ray, t_min, t_max),
    ;
}

/// A sphere: center and radius.  A nonpositive radius is not corrected; a
/// zero radius is rejected by the intersection precondition.
#[derive(Clone, Copy, Debug, PartialEq, Eq, Structural)]
pub struct Sphere {
    pub center: Vec3,
    pub radius: i64,
}

impl Sphere {
    pub fn new(center: Vec3, radius: i64) -> (s: Sphere)
        ensures
            s.center == center,
            s.radius == radius,
    {
        Sphere { center, radius }
    }
}

/// A sphere the intersection test accepts: nonzero radius, coordinates
/// bounded by [`HIT_MAX`].
pub open spec fn sphere_wf(s: Sphere) -> bool {
    &&& s.radius != 0
    &&& fp_abs(s.radius as int) <= HIT_MAX as int
    &&& bounded3(v3(s.center), HIT_MAX as int)
}

/// Offset from the sphere center to the ray origin.
pub open spec fn sphere_oc3(s: Sphere, r: Ray) -> (int, int, int) {
    sub3(v3(r.origin), v3(s.center))
}

/// The quadratic coefficient `a`: the direction dotted with itself.
pub open spec fn sphere_a(r: Ray) -> int {
    dot3(v3(r.dir), v3(r.dir))
}

/// The half coefficient `b/2`: offset dotted with direction.
pub open spec fn sphere_half_b(s: Sphere, r: Ray) -> int {
    dot3(sphere_oc3(s, r), v3(r.dir))
}

/// The constant coefficient `c`: offset squared minus radius squared.
pub open spec fn sphere_c(s: Sphere, r: Ray) -> int {
    dot3(sphere_oc3(s, r), sphere_oc3(s, r)) - fmul(s.radius as int, s.radius as int)
}

/// The quarter discriminant `(b/2)^2 - a*c`; negative means the ray misses.
pub open spec fn sphere_disc(s: Sphere, r: Ray) -> int {
    fmul(sphere_half_b(s, r), sphere_half_b(s, r)) - fmul(sphere_a(r), sphere_c(s, r))
}

/// The near root of the quadratic.
pub open spec fn sphere_t1(s: Sphere, r: Ray) -> int {
    fdiv(-sphere_half_b(s, r) - fsqrt(sphere_disc(s, r)), sphere_a(r))
}

/// The far root of the quadratic.
pub open spec fn sphere_t2(s: Sphere, r: Ray) -> int {
    fdiv(-sphere_half_b(s, r) + fsqrt(sphere_disc(s, r)), sphere_a(r))
}

/// The hit record for a sphere contact at parameter `t`: the contact point,
/// the outward normal `(point - center) / radius` flipped onto the side the
/// ray came from, and the face tag.
pub open spec fn sphere_hit_point(s: Sphere, r: Ray, t: int) -> HitPoint {
    let p = ray_at3(r, t);
    let outward = sdiv3(sub3(p, v3(s.center)), s.radius as int);
    if dot3(v3(r.dir), outward) < 0 {
        HitPoint { point: vec_of3(p), normal: vec_of3(outward), t: t as i64, face: HitFace::Front }
    } else {
        HitPoint {
            point: vec_of3(p),
            normal: vec_of3(neg3(outward)),
            t: t as i64,
            face: HitFace::Back,
        }
    }
}

/// The full answer of the sphere intersection: a miss when the discriminant
/// is negative, else the near root if it lies in the window, else the far
/// root if it does, else a miss.
pub open spec fn sphere_hit_spec(s: Sphere, r: Ray, t_min: int, t_max: int) -> HitResult {
    if sphere_disc(s, r) < 0 {
        HitResult::NoHit
    } else if t_min <= sphere_t1(s, r) <= t_max {
        HitResult::Hit(sphere_hit_point(s, r, sphere_t1(s, r)))
    } else if t_min <= sphere_t2(s, r) <= t_max {
        HitResult::Hit(sphere_hit_point(s, r, sphere_t2(s, r)))
    } else {
        HitResult::NoHit
    }
}

/// Magnitude bounds on the quadratic's coefficients for bounded inputs.
proof fn lemma_sphere_coeff_bounds(s: Sphere, r: Ray)
    requires
        sphere_wf(s),
        bounded3(v3(r.origin), HIT_MAX as int),
        bounded3(v3(r.dir), HIT_MAX as int),
    ensures
        bounded3(sphere_oc3(s, r), 0x4000000),
        fp_abs(sphere_a(r)) <= 0xc00000000,
        fp_abs(sphere_half_b(s, r)) <= 0x1800000000,
        fp_abs(sphere_c(s, r)) <= 0x3400000000,
        fp_abs(fmul(s.radius as int, s.radius as int)) <= 0x400000000,
        fp_abs(fmul(sphere_half_b(s, r), sphere_half_b(s, r))) <= 0x240000000000000,
        fp_abs(fmul(sphere_a(r), sphere_c(s, r))) <= 0x270000000000000,
        fp_abs(sphere_disc(s, r)) <= 0x4b0000000000000,
        0 <= sphere_a(r),
{
    let oc = sphere_oc3(s, r);
    lemma_dot3_le(v3(r.dir), v3(r.dir), HIT_MAX as int, HIT_MAX as int);
    lemma_dot3_le(oc, v3(r.dir), 0x4000000, HIT_MAX as int);
    lemma_dot3_le(oc, oc, 0x4000000, 0x4000000);
    lemma_dot3_self_nonneg(v3(r.dir));
    lemma_fmul_le(s.radius as int, s.radius as int, HIT_MAX as int, HIT_MAX as int);
    lemma_fmul_le(sphere_half_b(s, r), sphere_half_b(s, r), 0x1800000000, 0x1800000000);
    lemma_fmul_le(sphere_a(r), sphere_c(s, r), 0xc00000000, 0x3400000000);
}

/// Builds the hit record for a contact at parameter `t`; all intermediate
/// values fit for bounded, well-formed inputs.
fn make_hit_point(s: &Sphere, ray: &Ray, t: i64) -> (h: HitPoint)
    requires
        sphere_wf(*s),
        bounded3(v3(ray.origin), HIT_MAX as int),
        bounded3(v3(ray.dir), HIT_MAX as int),
        fp_abs(t as int) <= HIT_MAX as int,
    ensures
        h == sphere_hit_point(*s, *ray, t as int),
{
    proof {
        lemma_fmul_le(ray.dir.i as int, t as int, HIT_MAX as int, HIT_MAX as int);
        lemma_fmul_le(ray.dir.j as int, t as int, HIT_MAX as int, HIT_MAX as int);
        lemma_fmul_le(ray.dir.k as int, t as int, HIT_MAX as int, HIT_MAX as int);
    }
    let p = ray.at(t);
    let op = p.sub(s.center);
    proof {
        lemma_fdiv_le(op.i as int, s.radius as int, 0x800000000);
        lemma_fdiv_le(op.j as int, s.radius as int, 0x800000000);
        lemma_fdiv_le(op.k as int, s.radius as int, 0x800000000);
    }
    let outward = op.div(s.radius);
    proof {
        lemma_dot3_le(v3(ray.dir), v3(outward), HIT_MAX as int, 0x8000000000000);
    }
    let d: i64 = crate::fixed::dot3_i64(
        ray.dir.i,
        ray.dir.j,
        ray.dir.k,
        outward.i,
        outward.j,
        outward.k,
    );
    if d < 0 {
        HitPoint { point: p, normal: outward, t, face: HitFace::Front }
    } else {
        HitPoint { point: p, normal: outward.neg(), t, face: HitFace::Back }
    }
}

impl Hittable for Sphere {
    /// Coordinates, radius and distance window bounded, nonzero radius, and
    /// a direction of nonzero fixed-point squared length.
    open spec fn hit_req(&self, r: Ray, t_min: i64, t_max: i64) -> bool {
        &&& sphere_wf(*self)
        &&& bounded3(v3(r.origin), HIT_MAX as int)
        &&& bounded3(v3(r.dir), HIT_MAX as int)
        &&& 1 <= sphere_a(r)
        &&& fp_abs(t_min as int) <= HIT_MAX as int
        &&& fp_abs(t_max as int) <= HIT_MAX as int
    }

    open spec fn hit_spec(&self, r: Ray, t_min: i64, t_max: i64) -> HitResult {
        sphere_hit_spec(*self, r, t_min as int, t_max as int)
    }

    /// Solves the quadratic for the ray against this sphere and reports the
    /// nearest root inside `[t_min, t_max]`, if any.
    fn hit(&self, ray: &Ray, t_min: i64, t_max: i64) -> (res: HitResult) {
        proof {
            lemma_sphere_coeff_bounds(*self, *ray);
        }
        let offset = ray.origin.sub(self.center);
        let a: i64 = ray.dir.dot(&ray.dir);
        let half_b: i64 = offset.dot(&ray.dir);
        let c: i64 = offset.length_squared() - mul_fp(self.radius, self.radius);
        let discriminant: i64 = mul_fp(half_b, half_b) - mul_fp(a, c);

        if discriminant < 0 {
            return HitResult::NoHit;
        }
        let sqrtd: i64 = sqrt_fp(discriminant);
        proof {
            lemma_sqrt_bound((discriminant as int) * (SCALE as int), 0x4000000000);
            lemma_fdiv_le(-half_b - sqrtd, a as int, 0x5800000000);
            lemma_fdiv_le(-half_b + sqrtd, a as int, 0x5800000000);
        }

        let mut dist: i64 = crate::fixed::div_fp(-half_b - sqrtd, a);
        if dist < t_min || t_max < dist {
            dist = crate::fixed::div_fp(-half_b + sqrtd, a);
            if dist < t_min || t_max < dist {
                return HitResult::NoHit;
            }
        }

        HitResult::Hit(make_hit_point(self, ray, dist))
    }
}

/// Of two intersection outcomes, the one kept by the scene fold: a miss
/// never displaces a hit, and of two hits the strictly nearer earlier one
/// wins, the later one on ties.
pub open spec fn closer_hit(prev: HitResult, curr: HitResult) -> HitResult {
    match (prev, curr) {
        (HitResult::NoHit, _) => curr,
        (_, HitResult::NoHit) => prev,
        (HitResult::Hit(p), HitResult::Hit(c)) => if p.t < c.t {
            prev
        } else {
            curr
        },
    }
}

/// The outcome of testing a ray against every member in order, keeping the
/// nearest hit.
pub open spec fn list_hit_spec<T: Hittable>(
    elems: Seq<T>,
    r: Ray,
    t_min: i64,
    t_max: i64,
) -> HitResult
    decreases elems.len(),
{
    if elems.len() == 0 {
        HitResult::NoHit
    } else {
        closer_hit(
            list_hit_spec(elems.drop_last(), r, t_min, t_max),
            elems.last().hit_spec(r, t_min, t_max),
        )
    }
}

/// An ordered collection of shapes, itself testable as one shape: it reports
/// the nearest valid hit among its members.
pub struct HittableList<T: Hittable> {
    pub elements: Vec<T>,
}

impl<T: Hittable> HittableList<T> {
    pub fn new(elements: Vec<T>) -> (l: HittableList<T>)
        ensures
            l.elements == elements,
    {
        HittableList { elements }
    }

    /// Appends a shape to the scene.
    pub fn add(&mut self, hittable: T)
        ensures
            final(self).elements@ == old(self).elements@.push(hittable),
    {
        self.elements.push(hittable);
    }

    /// Removes every shape from the scene.
    pub fn clear(&mut self)
        ensures
            final(self).elements@ == Seq::<T>::empty(),
    {
        self.elements.clear();
    }
}

impl<T: Hittable> Hittable for HittableList<T> {
    /// Every member must accept the query.
    open spec fn hit_req(&self, r: Ray, t_min: i64, t_max: i64) -> bool {
        forall|i: int|
            0 <= i < self.elements@.len() ==> #[trigger] self.elements@[i].hit_req(r, t_min, t_max)
    }

    open spec fn hit_spec(&self, r: Ray, t_min: i64, t_max: i64) -> HitResult {
        list_hit_spec(self.elements@, r, t_min, t_max)
    }

    /// Folds the members' answers, keeping the nearest hit.
    #[verifier::loop_isolation(false)]
    fn hit(&self, ray: &Ray, t_min: i64, t_max: i64) -> (res: HitResult) {
        let mut res = HitResult::NoHit;
        let mut idx: usize = 0;
        while idx < self.elements.len()
            invariant
                idx <= self.elements@.len(),
                res == list_hit_spec(self.elements@.take(idx as int), *ray, t_min, t_max),
            decreases self.elements@.len() - idx,
        {
            let curr = self.elements[idx].hit(ray, t_min, t_max);
            proof {
                assert(self.elements@.take(idx as int + 1).drop_last() =~= self.elements@.take(
                    idx as int,
                ));
                assert(self.elements@.take(idx as int + 1).last() == self.elements@[idx as int]);
            }
            res = match (res, curr) {
                (HitResult::NoHit, _) => curr,
                (_, HitResult::NoHit) => res,
                (HitResult::Hit(p), HitResult::Hit(c)) => if p.t < c.t {
                    res
                } else {
                    curr
                },
            };
            idx = idx + 1;
        }
        proof {
            assert(self.elements@.take(self.elements@.len() as int) =~= self.elements@);
        }
        res
    }
}

/// A negative discriminant means the ray misses the sphere, whatever the
/// distance window.
pub proof fn lemma_negative_discriminant_misses(s: Sphere, r: Ray, t_min: int, t_max: int)
    requires
        sphere_disc(s, r) < 0,
    ensures
        sphere_hit_spec(s, r, t_min, t_max) == HitResult::NoHit,
{
}

/// When the discriminant is nonnegative the two roots are ordered: the near
/// root never exceeds the far root.
pub proof fn lemma_sphere_roots_ordered(s: Sphere, r: Ray)
    requires
        0 < sphere_a(r),
        0 <= sphere_disc(s, r),
    ensures
        sphere_t1(s, r) <= sphere_t2(s, r),
{
    crate::fixed::lemma_sqrt_floor(sphere_disc(s, r) * (SCALE as int));
    let hb = sphere_half_b(s, r);
    let sq = fsqrt(sphere_disc(s, r));
    crate::fixed::lemma_tdiv_monotone(
        (-hb - sq) * (SCALE as int),
        (-hb + sq) * (SCALE as int),
        sphere_a(r),
    );
}

/// A hit is always reported at the near root when it lies in the window,
/// whatever the far root does.
pub proof fn lemma_hit_prefers_near_root(s: Sphere, r: Ray, t_min: int, t_max: int)
    requires
        0 <= sphere_disc(s, r),
        t_min <= sphere_t1(s, r) <= t_max,
    ensures
        sphere_hit_spec(s, r, t_min, t_max) == HitResult::Hit(
            sphere_hit_point(s, r, sphere_t1(s, r)),
        ),
{
}

/// The fields of a sphere hit record are bounded for bounded inputs.
pub proof fn lemma_sphere_hit_point_bounds(s: Sphere, r: Ray, t: int)
    requires
        sphere_wf(s),
        bounded3(v3(r.origin), HIT_MAX as int),
        bounded3(v3(r.dir), HIT_MAX as int),
        fp_abs(t) <= HIT_MAX as int,
    ensures
        bounded3(v3(sphere_hit_point(s, r, t).point), 0x402000000),
        bounded3(v3(sphere_hit_point(s, r, t).normal), 0x4040000000000),
        sphere_hit_point(s, r, t).t == t,
{
    lemma_fmul_le(r.dir.i as int, t, HIT_MAX as int, HIT_MAX as int);
    lemma_fmul_le(r.dir.j as int, t, HIT_MAX as int, HIT_MAX as int);
    lemma_fmul_le(r.dir.k as int, t, HIT_MAX as int, HIT_MAX as int);
    let p = ray_at3(r, t);
    let op = sub3(p, v3(s.center));
    lemma_fdiv_le(op.0, s.radius as int, 0x404000000);
    lemma_fdiv_le(op.1, s.radius as int, 0x404000000);
    lemma_fdiv_le(op.2, s.radius as int, 0x404000000);
}

/// A hit reported by a sphere lies in the distance window and has bounded
/// contact point and normal.
pub proof fn lemma_sphere_hit_bounds(s: Sphere, r: Ray, t_min: i64, t_max: i64)
    requires
        sphere_wf(s),
        bounded3(v3(r.origin), HIT_MAX as int),
        bounded3(v3(r.dir), HIT_MAX as int),
        fp_abs(t_min as int) <= HIT_MAX as int,
        fp_abs(t_max as int) <= HIT_MAX as int,
    ensures
        sphere_hit_spec(s, r, t_min as int, t_max as int) matches HitResult::Hit(h) ==> {
            &&& bounded3(v3(h.point), 0x402000000)
            &&& bounded3(v3(h.normal), 0x4040000000000)
            &&& t_min <= h.t <= t_max
        },
{
    if sphere_disc(s, r) >= 0 {
        if t_min as int <= sphere_t1(s, r) <= t_max as int {
            lemma_sphere_hit_point_bounds(s, r, sphere_t1(s, r));
        } else if t_min as int <= sphere_t2(s, r) <= t_max as int {
            lemma_sphere_hit_point_bounds(s, r, sphere_t2(s, r));
        }
    }
}

/// A hit reported by the scene fold over spheres lies in the distance window
/// and has bounded contact point and normal.
pub proof fn lemma_scene_hit_bounds(elems: Seq<Sphere>, r: Ray, t_min: i64, t_max: i64)
    requires
        forall|i: int| 0 <= i < elems.len() ==> sphere_wf(#[trigger] elems[i]),
        bounded3(v3(r.origin), HIT_MAX as int),
        bounded3(v3(r.dir), HIT_MAX as int),
        fp_abs(t_min as int) <= HIT_MAX as int,
        fp_abs(t_max as int) <= HIT_MAX as int,
    ensures
        list_hit_spec(elems, r, t_min, t_max) matches HitResult::Hit(h) ==> {
            &&& bounded3(v3(h.point), 0x402000000)
            &&& bounded3(v3(h.normal), 0x4040000000000)
            &&& t_min <= h.t <= t_max
        },
    decreases elems.len(),
{
    if elems.len() > 0 {
        let prefix = elems.drop_last();
        assert forall|i: int| 0 <= i < prefix.len() implies sphere_wf(#[trigger] prefix[i]) by {
            assert(prefix[i] == elems[i]);
        }
        lemma_scene_hit_bounds(prefix, r, t_min, t_max);
        assert(elems[elems.len() - 1] == elems.last());
        lemma_sphere_hit_bounds(elems.last(), r, t_min, t_max);
    }
}

/// The scene fold returns the globally nearest hit: it misses exactly when
/// every member misses, and a hit it reports is one of the members' hits and
/// no farther than any member's hit.
pub proof fn lemma_list_hit_nearest<T: Hittable>(elems: Seq<T>, r: Ray, t_min: i64, t_max: i64)
    ensures
        list_hit_spec(elems, r, t_min, t_max) is NoHit <==> (forall|i: int|
            0 <= i < elems.len() ==> #[trigger] elems[i].hit_spec(r, t_min, t_max) is NoHit),
        list_hit_spec(elems, r, t_min, t_max) matches HitResult::Hit(h) ==> {
            &&& exists|i: int|
                0 <= i < elems.len() && #[trigger] elems[i].hit_spec(r, t_min, t_max)
                    == HitResult::Hit(h)
            &&& forall|i: int|
                0 <= i < elems.len() && #[trigger] elems[i].hit_spec(r, t_min, t_max) is Hit
                    ==> h.t <= elems[i].hit_spec(r, t_min, t_max)->Hit_0.t
        },
    decreases elems.len(),
{
    if elems.len() > 0 {
        let n = elems.len() as int;
        let prefix = elems.drop_last();
        lemma_list_hit_nearest(prefix, r, t_min, t_max);
        let pres = list_hit_spec(prefix, r, t_min, t_max);
        let lres = elems.last().hit_spec(r, t_min, t_max);
        assert(list_hit_spec(elems, r, t_min, t_max) == closer_hit(pres, lres));
        assert forall|i: int| 0 <= i < n - 1 implies #[trigger] elems[i].hit_spec(r, t_min, t_max)
            == prefix[i].hit_spec(r, t_min, t_max) by {
            assert(prefix[i] == elems[i]);
        }
        if closer_hit(pres, lres) is NoHit {
            assert forall|i: int| 0 <= i < n implies #[trigger] elems[i].hit_spec(
                r,
                t_min,
                t_max,
            ) is NoHit by {
                if i < n - 1 {
                    assert(prefix[i].hit_spec(r, t_min, t_max) is NoHit);
                } else {
                    assert(elems[i] == elems.last());
                }
            }
        } else {
            let h = closer_hit(pres, lres)->Hit_0;
            if lres is Hit && (pres is NoHit || !(pres->Hit_0.t < lres->Hit_0.t)) {
                assert(elems[n - 1].hit_spec(r, t_min, t_max) == HitResult::Hit(h));
            } else {
                let pi = choose|i: int|
                    0 <= i < prefix.len() && #[trigger] prefix[i].hit_spec(r, t_min, t_max)
                        == HitResult::Hit(h);
                assert(elems[pi].hit_spec(r, t_min, t_max) == HitResult::Hit(h));
            }
            assert forall|i: int|
                0 <= i < n && #[trigger] elems[i].hit_spec(r, t_min, t_max) is Hit implies h.t
                <= elems[i].hit_spec(r, t_min, t_max)->Hit_0.t by {
                if i < n - 1 {
                    assert(prefix[i].hit_spec(r, t_min, t_max) is Hit);
                } else {
                    assert(elems[i] == elems.last());
                }
            }
        }
        if (forall|i: int|
            0 <= i < n ==> #[trigger] elems[i].hit_spec(r, t_min, t_max) is NoHit) {
            assert forall|i: int| 0 <= i < prefix.len() implies #[trigger] prefix[i].hit_spec(
                r,
                t_min,
                t_max,
            ) is NoHit by {
                assert(elems[i].hit_spec(r, t_min, t_max) is NoHit);
            }
            assert(elems[n - 1] == elems.last());
            assert(lres is NoHit);
        }
    }
}

} // verus!
