use rustracer::fixed::{byte_of_fp, div_fp, mul_fp, sqrt_fp, SCALE};
use rustracer::vec3::Vec3;

const S: i64 = SCALE;

#[test]
fn new_stores_components() {
    let v = Vec3::new(1, -2, 3);
    assert_eq!(v.i, 1);
    assert_eq!(v.j, -2);
    assert_eq!(v.k, 3);
}

#[test]
fn neg_flips_every_component() {
    let v = Vec3::new(S, -2 * S, 0);
    assert_eq!(v.neg(), Vec3::new(-S, 2 * S, 0));
}

#[test]
fn add_and_sub_are_componentwise() {
    let a = Vec3::new(S, 2 * S, -3 * S);
    let b = Vec3::new(10, -20, 30);
    assert_eq!(a.add(b), Vec3::new(S + 10, 2 * S - 20, -3 * S + 30));
    assert_eq!(a.sub(b), Vec3::new(S - 10, 2 * S + 20, -3 * S - 30));
}

#[test]
fn in_place_variants_match_the_pure_ones() {
    let a = Vec3::new(S, 2 * S, -3 * S);
    let b = Vec3::new(10, -20, 30);
    let mut c = a;
    c.add_assign(b);
    assert_eq!(c, a.add(b));
    let mut d = a;
    d.sub_assign(b);
    assert_eq!(d, a.sub(b));
    let mut e = a;
    e.scale_assign(32768);
    assert_eq!(e, a.scale(32768));
    let mut f = a;
    f.div_assign(2 * S);
    assert_eq!(f, a.div(2 * S));
}

#[test]
fn componentwise_mul_scales_each_pair() {
    let a = Vec3::new(32768, 65536, 131072);
    let b = Vec3::new(16384, 32768, 32768);
    assert_eq!(a.mul(b), Vec3::new(8192, 32768, 65536));
}

#[test]
fn scalar_mul_and_div_are_inverses_on_exact_values() {
    let a = Vec3::new(3 * S, -4 * S, 5 * S);
    let doubled = a.scale(2 * S);
    assert_eq!(doubled, Vec3::new(6 * S, -8 * S, 10 * S));
    assert_eq!(doubled.div(2 * S), a);
}

#[test]
fn dot_product_of_unit_axes() {
    let a = Vec3::new(S, 2 * S, 3 * S);
    let b = Vec3::new(4 * S, 5 * S, 6 * S);
    // 1*4 + 2*5 + 3*6 = 32
    assert_eq!(a.dot(&b), 32 * S);
}

#[test]
fn cross_product_of_axes_gives_third_axis() {
    let x = Vec3::new(S, 0, 0);
    let y = Vec3::new(0, S, 0);
    assert_eq!(x.cross(&y), Vec3::new(0, 0, S));
    assert_eq!(y.cross(&x), Vec3::new(0, 0, -S));
}

#[test]
fn length_squared_equals_dot_with_self() {
    let v = Vec3::new(3 * S, 4 * S, 0);
    assert_eq!(v.length_squared(), v.dot(&v));
    assert_eq!(v.length_squared(), 25 * S);
}

#[test]
fn length_is_square_root_of_length_squared() {
    let v = Vec3::new(3 * S, 4 * S, 0);
    assert_eq!(v.length(), 5 * S);
    assert_eq!(v.length(), sqrt_fp(v.length_squared()));
}

#[test]
fn normalized_has_unit_length_within_rounding() {
    let v = Vec3::new(3 * S, 4 * S, 0);
    let u = v.normalized();
    assert_eq!(u, Vec3::new(39321, 52428, 0));
    // within one part in a thousand of one unit
    let len: i64 = u.length();
    assert!((len - S).abs() < 66);
    // and it points the same way as the original vector
    assert!(u.dot(&v) > 0);
}

#[test]
fn as_rgba_packs_full_red_and_black() {
    assert_eq!(Vec3::new(S, 0, 0).as_rgba(), [255, 0, 0, 255]);
    assert_eq!(Vec3::new(0, 0, 0).as_rgba(), [0, 0, 0, 255]);
}

#[test]
fn as_rgba_clamps_out_of_range_components() {
    assert_eq!(Vec3::new(-5, 70000, 32768).as_rgba(), [0, 255, 127, 255]);
}

#[test]
fn fixed_point_scalar_helpers() {
    assert_eq!(mul_fp(3 * S, 2 * S), 6 * S);
    assert_eq!(mul_fp(-3 * S, 2 * S), -6 * S);
    assert_eq!(div_fp(6 * S, 2 * S), 3 * S);
    assert_eq!(div_fp(-6 * S, 2 * S), -3 * S);
    assert_eq!(sqrt_fp(4 * S), 2 * S);
    assert_eq!(sqrt_fp(0), 0);
    assert_eq!(byte_of_fp(32768), 127);
}
