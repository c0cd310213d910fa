//! The renderable world: a camera sized to the image, a fixed two-sphere
//! scene, the per-pixel shading rule, and the frame writer.

use crate::camera::{cam_dir3, cam_wf, Camera};
use crate::fixed::{
    fdiv, fmul, lemma_div_bound, lemma_fmul_le, lemma_fmul_unit_le, lemma_tdiv_monotone,
    lemma_tdiv_nonneg, lemma_tdiv_zero, tdiv, SCALE,
};
use crate::ray::Ray;
use crate::shapes::{
    lemma_scene_hit_bounds, list_hit_spec, sphere_a, sphere_wf, HitResult, Hittable, HittableList,
    Sphere, HIT_MAX,
};
use crate::vec3::{add3, bounded3, dot3, rgba3, smul3, unit3, v3, vec_of3, Vec3};
use vstd::arithmetic::div_mod::{
    lemma_div_multiples_vanish_fancy, lemma_mod_multiples_vanish, lemma_small_mod,
};
use vstd::prelude::*;

verus! {

/// Lower edge of the visible distance window.
pub const T_MIN: i64 = 0;

/// Upper edge of the visible distance window: ten world units.
pub const T_MAX: i64 = 655360;

/// Half of one unit: the fixed-point factor 0.5.
pub const HALF: i64 = 32768;

/// The white of the background gradient and of the normal shading.
pub open spec fn white3() -> (int, int, int) {
    (65536int, 65536int, 65536int)
}

/// The light blue the background gradient fades into at the top.
pub open spec fn light_blue3() -> (int, int, int) {
    (32768int, 45875int, 65536int)
}

/// The small sphere in front of the camera: half a unit of radius, one unit
/// down the view axis.
pub open spec fn small_sphere() -> Sphere {
    Sphere { center: Vec3 { i: 0i64, j: 0i64, k: -65536i64 }, radius: 32768i64 }
}

/// The ground sphere: a hundred units of radius, just below the small one.
pub open spec fn ground_sphere() -> Sphere {
    Sphere { center: Vec3 { i: 0i64, j: -6586368i64, k: -65536i64 }, radius: 6553600i64 }
}

/// Every sphere of the scene is accepted by the intersection test.
pub open spec fn scene_wf(elems: Seq<Sphere>) -> bool {
    forall|i: int| 0 <= i < elems.len() ==> sphere_wf(#[trigger] elems[i])
}

/// The color of a ray: for a hit, the normal mapped to a color; for a miss,
/// the vertical white-to-blue background gradient.
pub open spec fn ray_color3(r: Ray, elems: Seq<Sphere>) -> (int, int, int) {
    match list_hit_spec(elems, r, T_MIN, T_MAX) {
        HitResult::Hit(h) => smul3(add3(v3(h.normal), white3()), HALF as int),
        HitResult::NoHit => {
            let unit = unit3(v3(r.dir));
            let t = fmul(unit.1 + (SCALE as int), HALF as int);
            add3(smul3(white3(), (SCALE as int) - t), smul3(light_blue3(), t))
        },
    }
}

fn white() -> (c: Vec3)
    ensures
        v3(c) == white3(),
{
    Vec3::new(65536, 65536, 65536)
}

fn light_blue() -> (c: Vec3)
    ensures
        v3(c) == light_blue3(),
{
    Vec3::new(32768, 45875, 65536)
}

/// Resolves the color of one camera ray against the scene, exactly as
/// [`ray_color3`] states it.
pub fn ray_color(ray: Ray, scene: &HittableList<Sphere>) -> (c: Vec3)
    requires
        scene_wf(scene.elements@),
        bounded3(v3(ray.origin), HIT_MAX as int),
        bounded3(v3(ray.dir), HIT_MAX as int),
        1 <= sphere_a(ray),
    ensures
        v3(c) == ray_color3(ray, scene.elements@),
{
    proof {
        lemma_scene_hit_bounds(scene.elements@, ray, T_MIN, T_MAX);
    }
    match scene.hit(&ray, T_MIN, T_MAX) {
        HitResult::Hit(h) => {
            proof {
                lemma_fmul_unit_le(h.normal.i + 65536, HALF as int);
                lemma_fmul_unit_le(h.normal.j + 65536, HALF as int);
                lemma_fmul_unit_le(h.normal.k + 65536, HALF as int);
            }
            h.normal.add(white()).scale(HALF)
        },
        HitResult::NoHit => {
            proof {
                crate::vec3::lemma_unit3_bound(v3(ray.dir), HIT_MAX as int);
            }
            let unit = ray.dir.normalized();
            proof {
                lemma_fmul_unit_le(unit.j + 65536, HALF as int);
            }
            let t: i64 = crate::fixed::mul_fp(unit.j + SCALE, HALF);
            proof {
                lemma_fmul_le(65536, 65536 - t as int, 65536, 0x20002000000000);
                lemma_fmul_le(32768, t as int, 65536, 0x20002000000000);
                lemma_fmul_le(45875, t as int, 65536, 0x20002000000000);
                lemma_fmul_le(65536, t as int, 65536, 0x20002000000000);
            }
            white().scale(SCALE - t).add(light_blue().scale(t))
        },
    }
}

/// The renderable world: image size, the camera sized to it, and the scene.
pub struct World {
    pub width: u32,
    pub height: u32,
    pub camera: Camera,
    pub scene: HittableList<Sphere>,
}

/// What rendering relies on: a well-formed camera at the world origin whose
/// viewport is parallel to the image plane and sits at least one unit down
/// the view axis, and a well-formed scene.
pub open spec fn world_wf(w: World) -> bool {
    &&& 1 <= w.width
    &&& 1 <= w.height
    &&& cam_wf(w.camera)
    &&& v3(w.camera.origin) == (0int, 0int, 0int)
    &&& w.camera.horizontal.k == 0
    &&& w.camera.vertical.k == 0
    &&& w.camera.lower_left_corner.k <= -(SCALE as int)
    &&& scene_wf(w.scene.elements@)
}

/// The fixed-point viewport height for an image: its aspect ratio.
pub open spec fn viewport_height_fp(width: int, height: int) -> int {
    fdiv(width * (SCALE as int), height * (SCALE as int))
}

impl World {
    /// Builds the world for an image: a camera with a viewport two units
    /// wide, one aspect ratio tall and one unit of focal length, and the
    /// fixed two-sphere scene.  The image must be at most 128 times wider
    /// than tall, so the viewport fits the camera's bounds.
    pub fn new(width: u32, height: u32) -> (w: World)
        requires
            1 <= width,
            1 <= height,
            width <= 128 * (height as int),
        ensures
            w.width == width,
            w.height == height,
            w.camera.viewport_width == 131072,
            w.camera.viewport_height as int == viewport_height_fp(width as int, height as int),
            w.camera.focal_length == SCALE,
            v3(w.camera.origin) == (0int, 0int, 0int),
            v3(w.camera.horizontal) == (131072int, 0int, 0int),
            v3(w.camera.vertical) == (
                0int,
                viewport_height_fp(width as int, height as int),
                0int,
            ),
            v3(w.camera.lower_left_corner) == (
                -65536int,
                -fdiv(viewport_height_fp(width as int, height as int), 131072),
                -65536int,
            ),
            w.scene.elements@ == seq![small_sphere(), ground_sphere()],
            world_wf(w),
    {
        let w_fp: i64 = (width as i64) * SCALE;
        let h_fp: i64 = (height as i64) * SCALE;
        proof {
            let wi = width as int;
            let hi = height as int;
            lemma_tdiv_nonneg(wi * 65536 * 65536, hi * 65536);
            assert(wi * 65536 * 65536 <= 0x800000 * (hi * 65536)) by (nonlinear_arith)
                requires
                    wi <= 128 * hi,
            ;
            lemma_div_bound(wi * 65536 * 65536, hi * 65536, 0x800000);
        }
        let vh: i64 = crate::fixed::div_fp(w_fp, h_fp);
        let camera = Camera::new(2 * SCALE, vh, SCALE);
        let mut elements: Vec<Sphere> = Vec::new();
        elements.push(Sphere::new(Vec3::new(0, 0, -SCALE), 32768));
        elements.push(Sphere::new(Vec3::new(0, -6586368, -SCALE), 6553600));
        proof {
            assert(elements@ =~= seq![small_sphere(), ground_sphere()]);
            lemma_tdiv_nonneg(131072int * 65536, 131072);
            assert(fdiv(131072, 2 * (SCALE as int)) == 65536);
        }
        let scene = HittableList::new(elements);
        World { width, height, camera, scene }
    }

    /// The per-frame state update: the scene is static, so nothing changes.
    pub fn update(&mut self)
        ensures
            *final(self) == *old(self),
    {
    }
}

/// The color of the pixel at image coordinates `(x, y)`: the camera ray
/// through the pixel's viewport coordinates, resolved against the scene.
/// Row zero is the top of the image, so the vertical coordinate is flipped.
pub open spec fn pixel_color3(w: World, x: int, y: int) -> (int, int, int) {
    let u = tdiv(x * (SCALE as int), w.width as int);
    let v = (SCALE as int) - tdiv(y * (SCALE as int), w.height as int);
    let r = Ray { origin: w.camera.origin, dir: vec_of3(cam_dir3(w.camera, u, v)) };
    ray_color3(r, w.scene.elements@)
}

/// The byte at offset `i` of the frame: the frame is row-major, top to
/// bottom, four bytes per pixel.
pub open spec fn pixel_byte_at(w: World, i: int) -> u8 {
    let p = i / 4;
    rgba3(pixel_color3(w, p % (w.width as int), p / (w.width as int)))[i % 4]
}

/// The full frame a world draws: every byte pinned down.
pub open spec fn frame_spec(w: World) -> Seq<u8> {
    Seq::new((w.width as nat) * (w.height as nat) * 4, |i: int| pixel_byte_at(w, i))
}

/// Decomposes a byte offset built from pixel coordinates back into those
/// coordinates.
proof fn lemma_pixel_index(w: World, x: int, y: int, c: int)
    requires
        0 <= x < w.width,
        0 <= y < w.height,
        0 <= c < 4,
    ensures
        pixel_byte_at(w, (y * (w.width as int) + x) * 4 + c) == rgba3(pixel_color3(w, x, y))[c],
{
    let wd = w.width as int;
    let p = y * wd + x;
    lemma_div_multiples_vanish_fancy(p, c, 4);
    lemma_mod_multiples_vanish(p, c, 4);
    lemma_small_mod(c as nat, 4nat);
    assert(p * 4 + c == 4 * p + c) by (nonlinear_arith);
    lemma_div_multiples_vanish_fancy(y, x, wd);
    lemma_mod_multiples_vanish(y, x, wd);
    lemma_small_mod(x as nat, wd as nat);
    assert(y * wd + x == wd * y + x) by (nonlinear_arith);
}

impl World {
    /// Draws one frame into the caller's buffer: exactly four bytes per
    /// pixel, row-major, top to bottom, never reading the prior contents.
    /// The buffer must hold exactly `width * height * 4` bytes.
    #[verifier::loop_isolation(false)]
    pub fn draw(&self, frame: &mut Vec<u8>)
        requires
            world_wf(*self),
            old(frame).len() == (self.width as int) * (self.height as int) * 4,
        ensures
            final(frame)@ == frame_spec(*self),
    {
        let width_us = self.width as usize;
        let height_us = self.height as usize;
        let mut y: usize = 0;
        while y < height_us
            invariant
                y <= height_us,
                frame@.len() == (self.width as int) * (self.height as int) * 4,
                forall|i: int|
                    0 <= i < 4 * ((y as int) * (self.width as int)) ==> frame@[i] == frame_spec(
                        *self,
                    )[i],
            decreases height_us - y,
        {
            let mut x: usize = 0;
            while x < width_us
                invariant
                    x <= width_us,
                    y < height_us,
                    frame@.len() == (self.width as int) * (self.height as int) * 4,
                    forall|i: int|
                        0 <= i < 4 * ((y as int) * (self.width as int) + (x as int)) ==> frame@[i]
                            == frame_spec(*self)[i],
                decreases width_us - x,
            {
                proof {
                    lemma_tdiv_nonneg((x as int) * 65536, self.width as int);
                    lemma_div_bound((x as int) * 65536, self.width as int, 65536);
                    lemma_tdiv_nonneg((y as int) * 65536, self.height as int);
                    lemma_div_bound((y as int) * 65536, self.height as int, 65536);
                }
                let u64u: u64 = ((x as u64) * 65536) / (self.width as u64);
                let u: i64 = u64u as i64;
                let v64: u64 = ((y as u64) * 65536) / (self.height as u64);
                let v: i64 = 65536 - (v64 as i64);
                let ray = self.camera.ray_at(u, v);
                proof {
                    lemma_camera_dir_valid(*self, u as int, v as int);
                }
                let color = ray_color(ray, &self.scene);
                let rgba = color.as_rgba();
                proof {
                    assert(((y as int) * (width_us as int) + (x as int)) * 4 + 3 < frame@.len())
                        by (nonlinear_arith)
                        requires
                            y < height_us,
                            x < width_us,
                            frame@.len() == (width_us as int) * (height_us as int) * 4,
                    ;
                }
                let base: usize = (y * width_us + x) * 4;
                frame[base] = rgba[0];
                frame[base + 1] = rgba[1];
                frame[base + 2] = rgba[2];
                frame[base + 3] = rgba[3];
                proof {
                    lemma_pixel_index(*self, x as int, y as int, 0);
                    lemma_pixel_index(*self, x as int, y as int, 1);
                    lemma_pixel_index(*self, x as int, y as int, 2);
                    lemma_pixel_index(*self, x as int, y as int, 3);
                    assert(ray.dir == vec_of3(
                        cam_dir3(self.camera, u as int, v as int),
                    ));
                }
                x = x + 1;
            }
            proof {
                assert((y as int) * (self.width as int) + (self.width as int) == ((y as int) + 1)
                    * (self.width as int)) by (nonlinear_arith);
            }
            y = y + 1;
        }
        proof {
            assert(4 * ((height_us as int) * (self.width as int)) == (self.width as int) * (
            self.height as int) * 4) by (nonlinear_arith)
                requires
                    height_us as int == self.height as int,
            ;
            assert(final(frame)@ =~= frame_spec(*self));
        }
    }
}

/// Rendering is deterministic: with no state change between them, two frames
/// drawn from the same world are byte-identical.
pub proof fn lemma_draw_deterministic(w: World, frame1: Seq<u8>, frame2: Seq<u8>)
    requires
        frame1 == frame_spec(w),
        frame2 == frame_spec(w),
    ensures
        frame1 == frame2,
{
}

/// Every ray the camera of a well-formed world generates points down the
/// view axis, so its direction has at least one unit of squared length.
pub proof fn lemma_camera_dir_valid(w: World, u: int, v: int)
    requires
        world_wf(w),
    ensures
        65536 <= dot3(cam_dir3(w.camera, u, v), cam_dir3(w.camera, u, v)),
{
    lemma_tdiv_zero(65536);
    let d = cam_dir3(w.camera, u, v);
    assert(d.2 == w.camera.lower_left_corner.k as int);
    assert(65536 * 65536 <= d.2 * d.2) by (nonlinear_arith)
        requires
            d.2 <= -65536,
    ;
    assert(0 <= d.0 * d.0 && 0 <= d.1 * d.1) by (nonlinear_arith);
    lemma_tdiv_monotone(65536int * 65536, d.0 * d.0 + d.1 * d.1 + d.2 * d.2, 65536);
    lemma_tdiv_nonneg(65536int * 65536, 65536);
}

} // verus!
