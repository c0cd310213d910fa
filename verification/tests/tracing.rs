use rustracer::camera::Camera;
use rustracer::ray::Ray;
use rustracer::shapes::{HitFace, HitResult, Hittable, HittableList, Sphere};
use rustracer::vec3::Vec3;

const S: i64 = 65536;

fn axis_ray() -> Ray {
    Ray { origin: Vec3::new(0, 0, 0), dir: Vec3::new(0, 0, -S) }
}

#[test]
fn ray_at_zero_is_the_origin() {
    let r = Ray { origin: Vec3::new(7, -8, 9), dir: Vec3::new(S, 2 * S, -3 * S) };
    assert_eq!(r.at(0), r.origin);
}

#[test]
fn ray_at_evaluates_parametrically_including_negative_t() {
    let r = Ray { origin: Vec3::new(S, 2 * S, 3 * S), dir: Vec3::new(S, -S, 2 * S) };
    assert_eq!(r.at(S), Vec3::new(2 * S, S, 5 * S));
    // t = -1.5
    assert_eq!(r.at(-98304), Vec3::new(-32768, 229376, 0));
}

#[test]
fn camera_geometry_matches_the_construction_formula() {
    // the camera of a 320x240 image: viewport 2.0 x (320/240), focal 1.0
    let c = Camera::new(2 * S, 87381, S);
    assert_eq!(c.origin, Vec3::new(0, 0, 0));
    assert_eq!(c.horizontal, Vec3::new(131072, 0, 0));
    assert_eq!(c.vertical, Vec3::new(0, 87381, 0));
    assert_eq!(c.lower_left_corner, Vec3::new(-65536, -43690, -65536));
}

#[test]
fn center_ray_passes_through_the_image_plane_center() {
    let c = Camera::new(2 * S, 87381, S);
    let r = c.ray_at(32768, 32768);
    assert_eq!(r.origin, Vec3::new(0, 0, 0));
    // direction-aligned with the world point (0, 0, -1)
    assert_eq!(r.dir, Vec3::new(0, 0, -S));
}

#[test]
fn center_ray_hits_unit_half_sphere_at_half_a_unit() {
    // end to end: the camera's center ray against a sphere at (0,0,-1), r 0.5
    let c = Camera::new(2 * S, 87381, S);
    let r = c.ray_at(32768, 32768);
    let s = Sphere::new(Vec3::new(0, 0, -S), 32768);
    match s.hit(&r, 0, 10 * S) {
        HitResult::Hit(h) => {
            assert_eq!(h.t, 32768);
            assert_eq!(h.point, Vec3::new(0, 0, -32768));
            assert_eq!(h.normal, Vec3::new(0, 0, S));
            assert!(h.face == HitFace::Front);
        },
        HitResult::NoHit => panic!("expected a hit"),
    }
}

#[test]
fn ray_through_sphere_center_reports_the_near_root() {
    // aimed straight at the center from outside: surface at t = 1.5, far
    // side at t = 2.5; the near root must be reported
    let s = Sphere::new(Vec3::new(0, 0, -131072), 32768);
    match s.hit(&axis_ray(), 0, 10 * S) {
        HitResult::Hit(h) => {
            assert_eq!(h.t, 98304);
            assert_eq!(h.normal, Vec3::new(0, 0, S));
            assert!(h.face == HitFace::Front);
        },
        HitResult::NoHit => panic!("expected a hit"),
    }
}

#[test]
fn ray_from_inside_reports_the_back_face() {
    // origin inside the sphere: only the far root is in range
    let s = Sphere::new(Vec3::new(0, 0, 0), 65536);
    match s.hit(&axis_ray(), 0, 10 * S) {
        HitResult::Hit(h) => {
            assert_eq!(h.t, 65536);
            assert!(h.face == HitFace::Back);
            // the normal is flipped to oppose the ray
            assert_eq!(h.normal, Vec3::new(0, 0, S));
        },
        HitResult::NoHit => panic!("expected a hit"),
    }
}

#[test]
fn perpendicular_offset_beyond_radius_misses_for_any_window() {
    // sphere one unit to the side of the ray, radius half a unit
    let s = Sphere::new(Vec3::new(S, 0, -131072), 32768);
    let r = axis_ray();
    assert!(matches!(s.hit(&r, 0, 10 * S), HitResult::NoHit));
    assert!(matches!(s.hit(&r, -10 * S, 10 * S), HitResult::NoHit));
    assert!(matches!(s.hit(&r, 0, 0), HitResult::NoHit));
    assert!(matches!(s.hit(&r, 100, 200 * S), HitResult::NoHit));
}

#[test]
fn hit_outside_the_window_is_a_miss() {
    let s = Sphere::new(Vec3::new(0, 0, -131072), 32768);
    // both roots (1.5 and 2.5) lie beyond t_max = 1.0
    assert!(matches!(s.hit(&axis_ray(), 0, S), HitResult::NoHit));
}

#[test]
fn scene_returns_the_globally_nearest_hit() {
    // two overlapping spheres along one ray
    let s1 = Sphere::new(Vec3::new(0, 0, -131072), 32768);
    let s2 = Sphere::new(Vec3::new(0, 0, -196608), 65536);
    let r = axis_ray();
    let t1: i64 = match s1.hit(&r, 0, 10 * S) {
        HitResult::Hit(h) => h.t,
        HitResult::NoHit => panic!("expected a hit"),
    };
    let t2: i64 = match s2.hit(&r, 0, 10 * S) {
        HitResult::Hit(h) => h.t,
        HitResult::NoHit => panic!("expected a hit"),
    };
    let list = HittableList::new(vec![s1, s2]);
    match list.hit(&r, 0, 10 * S) {
        HitResult::Hit(h) => {
            assert_eq!(h.t, t1.min(t2));
            assert_eq!(h.t, 98304);
        },
        HitResult::NoHit => panic!("expected a hit"),
    }
}

#[test]
fn scene_order_does_not_change_the_nearest_distance() {
    let s1 = Sphere::new(Vec3::new(0, 0, -131072), 32768);
    let s2 = Sphere::new(Vec3::new(0, 0, -196608), 65536);
    let r = axis_ray();
    let forward = HittableList::new(vec![s1, s2]);
    let backward = HittableList::new(vec![s2, s1]);
    let tf: i64 = match forward.hit(&r, 0, 10 * S) {
        HitResult::Hit(h) => h.t,
        HitResult::NoHit => panic!("expected a hit"),
    };
    let tb: i64 = match backward.hit(&r, 0, 10 * S) {
        HitResult::Hit(h) => h.t,
        HitResult::NoHit => panic!("expected a hit"),
    };
    assert_eq!(tf, tb);
}

#[test]
fn empty_scene_never_hits() {
    let list: HittableList<Sphere> = HittableList::new(vec![]);
    assert!(matches!(list.hit(&axis_ray(), 0, 10 * S), HitResult::NoHit));
}

#[test]
fn add_and_clear_change_the_scene() {
    let mut list: HittableList<Sphere> = HittableList::new(vec![]);
    list.add(Sphere::new(Vec3::new(0, 0, -131072), 32768));
    match list.hit(&axis_ray(), 0, 10 * S) {
        HitResult::Hit(h) => assert_eq!(h.t, 98304),
        HitResult::NoHit => panic!("expected a hit"),
    }
    list.clear();
    assert!(matches!(list.hit(&axis_ray(), 0, 10 * S), HitResult::NoHit));
}
