//! A ray: an origin point and a direction vector, evaluated parametrically.

use crate::fixed::{fmul, fp_abs, lemma_tdiv_zero, SCALE};
use crate::vec3::{add3, smul3, v3, Vec3};
use vstd::prelude::*;

verus! {

/// The point a ray reaches at parameter `t`: `origin + direction * t`.
pub open spec fn ray_at3(r: Ray, t: int) -> (int, int, int) {
    add3(v3(r.origin), smul3(v3(r.dir), t))
}

/// A ray, cast fresh for each pixel and consumed by intersection tests.
#[derive(Clone, Copy, Debug, PartialEq, Eq, Structural)]
pub struct Ray {
    pub origin: Vec3,
    pub dir: Vec3,
}

impl Ray {
    /// The point at parameter `t`; negative and out-of-range `t` are
    /// meaningful queries.  The scaled components must fit.
    pub fn at(&self, t: i64) -> (p: Vec3)
        requires
            fp_abs(fmul(self.dir.i as int, t as int)) <= i64::MAX as int,
            fp_abs(fmul(self.dir.j as int, t as int)) <= i64::MAX as int,
            fp_abs(fmul(self.dir.k as int, t as int)) <= i64::MAX as int,
            i64::MIN <= self.origin.i + fmul(self.dir.i as int, t as int) <= i64::MAX,
            i64::MIN <= self.origin.j + fmul(self.dir.j as int, t as int) <= i64::MAX,
            i64::MIN <= self.origin.k + fmul(self.dir.k as int, t as int) <= i64::MAX,
        ensures
            v3(p) == ray_at3(*self, t as int),
    {
        self.origin.add(self.dir.scale(t))
    }
}

/// At parameter zero a ray is at its own origin.
pub proof fn lemma_ray_at_zero(r: Ray)
    ensures
        ray_at3(r, 0) == v3(r.origin),
{
    lemma_tdiv_zero(SCALE as int);
}

} // verus!
