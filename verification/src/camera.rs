//! The pinhole camera: maps normalized image-plane coordinates to rays.
//!
//! The camera sits at the world origin and looks down the negative z axis.
//! All derived extents are computed once at construction and are immutable
//! afterwards.

use crate::fixed::{
    fdiv, fmul, fp_abs, lemma_fdiv_by_ge_scale, lemma_fmul_unit_le, lemma_tdiv_zero, SCALE,
};
use crate::ray::Ray;
use crate::vec3::{add3, bounded3, smul3, sub3, v3, Vec3};
use vstd::prelude::*;

verus! {

/// Magnitude bound on the camera's viewport extents and focal length:
/// 2^23 fixed-point units, 128 world units.
pub const CAM_MAX: i64 = 0x800000;

/// Magnitude bound on the origin and direction of every ray the camera
/// generates: four camera extents stacked.
pub const RAY_MAX: i64 = 0x2000000;

/// A camera is well formed when all its cached vectors are bounded.
pub open spec fn cam_wf(c: Camera) -> bool {
    &&& bounded3(v3(c.origin), CAM_MAX as int)
    &&& bounded3(v3(c.horizontal), CAM_MAX as int)
    &&& bounded3(v3(c.vertical), CAM_MAX as int)
    &&& bounded3(v3(c.lower_left_corner), CAM_MAX as int)
}

/// The direction of the ray through image-plane coordinates `(u, v)`:
/// `lower_left + horizontal*u + vertical*v - origin`.
pub open spec fn cam_dir3(c: Camera, u: int, v: int) -> (int, int, int) {
    sub3(
        add3(add3(v3(c.lower_left_corner), smul3(v3(c.horizontal), u)), smul3(v3(c.vertical), v)),
        v3(c.origin),
    )
}

/// The pinhole camera and its cached viewport geometry.
#[derive(Clone, Copy, Debug, PartialEq, Eq, Structural)]
pub struct Camera {
    pub viewport_width: i64,
    pub viewport_height: i64,
    pub focal_length: i64,
    pub origin: Vec3,
    pub horizontal: Vec3,
    pub vertical: Vec3,
    pub lower_left_corner: Vec3,
}

impl Camera {
    /// Builds the camera: origin at the world origin, the viewport extents
    /// along the x and y axes, and the lower-left corner of the image plane
    /// one focal length down the negative z axis.
    pub fn new(viewport_width: i64, viewport_height: i64, focal_length: i64) -> (c: Camera)
        requires
            fp_abs(viewport_width as int) <= CAM_MAX as int,
            fp_abs(viewport_height as int) <= CAM_MAX as int,
            fp_abs(focal_length as int) <= CAM_MAX as int,
        ensures
            c.viewport_width == viewport_width,
            c.viewport_height == viewport_height,
            c.focal_length == focal_length,
            v3(c.origin) == (0int, 0int, 0int),
            v3(c.horizontal) == (viewport_width as int, 0int, 0int),
            v3(c.vertical) == (0int, viewport_height as int, 0int),
            v3(c.lower_left_corner) == (
                -fdiv(viewport_width as int, 2 * (SCALE as int)),
                -fdiv(viewport_height as int, 2 * (SCALE as int)),
                -(focal_length as int),
            ),
            cam_wf(c),
    {
        let origin = Vec3::new(0, 0, 0);
        let horizontal = Vec3::new(viewport_width, 0, 0);
        let vertical = Vec3::new(0, viewport_height, 0);
        proof {
            lemma_fdiv_by_ge_scale(viewport_width as int, 2 * (SCALE as int));
            lemma_fdiv_by_ge_scale(viewport_height as int, 2 * (SCALE as int));
            lemma_fdiv_by_ge_scale(0, 2 * (SCALE as int));
            lemma_tdiv_zero(2 * (SCALE as int));
        }
        let two: i64 = 2 * SCALE;
        let lower_left_corner = origin.sub(horizontal.div(two)).sub(vertical.div(two)).sub(
            Vec3::new(0, 0, focal_length),
        );
        Camera {
            viewport_width,
            viewport_height,
            focal_length,
            origin,
            horizontal,
            vertical,
            lower_left_corner,
        }
    }

    /// The ray from the camera origin through image-plane coordinates
    /// `(u, v)`, both in `[0, 1]`: u runs left to right, v bottom to top.
    pub fn ray_at(&self, u: i64, v: i64) -> (r: Ray)
        requires
            cam_wf(*self),
            0 <= u <= SCALE,
            0 <= v <= SCALE,
        ensures
            r.origin == self.origin,
            v3(r.dir) == cam_dir3(*self, u as int, v as int),
            bounded3(v3(r.origin), RAY_MAX as int),
            bounded3(v3(r.dir), RAY_MAX as int),
    {
        proof {
            lemma_fmul_unit_le(self.horizontal.i as int, u as int);
            lemma_fmul_unit_le(self.horizontal.j as int, u as int);
            lemma_fmul_unit_le(self.horizontal.k as int, u as int);
            lemma_fmul_unit_le(self.vertical.i as int, v as int);
            lemma_fmul_unit_le(self.vertical.j as int, v as int);
            lemma_fmul_unit_le(self.vertical.k as int, v as int);
        }
        let dir = self.lower_left_corner.add(self.horizontal.scale(u)).add(
            self.vertical.scale(v),
        ).sub(self.origin);
        Ray { origin: self.origin, dir }
    }
}

} // verus!
