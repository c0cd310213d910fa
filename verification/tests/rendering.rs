use rustracer::errlog::log_error;
use rustracer::fixed::mul_fp;
use rustracer::shapes::{HittableList, Sphere};
use rustracer::vec3::Vec3;
use rustracer::world::{ray_color, World};

const S: i64 = 65536;

#[test]
fn world_builds_the_camera_from_the_aspect_ratio() {
    let w = World::new(320, 240);
    assert_eq!(w.width, 320);
    assert_eq!(w.height, 240);
    assert_eq!(w.camera.viewport_width, 2 * S);
    assert_eq!(w.camera.viewport_height, 87381);
    assert_eq!(w.camera.focal_length, S);
    assert_eq!(w.camera.lower_left_corner, Vec3::new(-65536, -43690, -65536));
}

#[test]
fn world_holds_the_two_sphere_scene() {
    let w = World::new(320, 240);
    assert_eq!(w.scene.elements.len(), 2);
    assert_eq!(w.scene.elements[0].center, Vec3::new(0, 0, -S));
    assert_eq!(w.scene.elements[0].radius, 32768);
    assert_eq!(w.scene.elements[1].center, Vec3::new(0, -6586368, -S));
    assert_eq!(w.scene.elements[1].radius, 6553600);
}

#[test]
fn corner_ray_against_empty_scene_is_the_background_gradient() {
    // the bottom-left corner ray of the 320x240 camera, on an empty scene
    let w = World::new(320, 240);
    let ray = w.camera.ray_at(0, 0);
    assert_eq!(ray.dir, Vec3::new(-65536, -43690, -65536));
    let empty: HittableList<Sphere> = HittableList::new(vec![]);
    let color = ray_color(ray, &empty);
    // the gradient formula, step by step, through the same public operations
    let unit = ray.dir.normalized();
    let t: i64 = mul_fp(unit.j + S, 32768);
    assert_eq!(t, 18796);
    let white = Vec3::new(S, S, S);
    let light_blue = Vec3::new(32768, 45875, S);
    let expected = white.scale(S - t).add(light_blue.scale(t));
    assert_eq!(color, expected);
    assert_eq!(color, Vec3::new(56138, 59897, 65536));
}

#[test]
fn center_ray_against_the_scene_shades_the_small_sphere() {
    let w = World::new(320, 240);
    let ray = w.camera.ray_at(32768, 32768);
    let color = ray_color(ray, &w.scene);
    // normal (0,0,1) maps to the color (0.5, 0.5, 1.0)
    assert_eq!(color, Vec3::new(32768, 32768, S));
    assert_eq!(color.as_rgba(), [127, 127, 255, 255]);
}

#[test]
fn draw_renders_a_small_frame_exactly() {
    let w = World::new(4, 2);
    let mut frame: Vec<u8> = vec![0; 4 * 2 * 4];
    w.draw(&mut frame);
    assert_eq!(
        frame,
        vec![
            155, 195, 255, 255, 149, 191, 255, 255, 146, 190, 255, 255, 149, 191, 255, 255, 191,
            217, 255, 255, 51, 127, 230, 255, 127, 127, 255, 255, 204, 127, 230, 255,
        ],
    );
}

#[test]
fn draw_ignores_the_prior_buffer_contents() {
    let w = World::new(4, 2);
    let mut zeroed: Vec<u8> = vec![0; 32];
    let mut dirty: Vec<u8> = vec![0xAB; 32];
    w.draw(&mut zeroed);
    w.draw(&mut dirty);
    assert_eq!(zeroed, dirty);
}

#[test]
fn draw_twice_without_update_is_byte_identical() {
    let w = World::new(16, 12);
    let mut first: Vec<u8> = vec![0; 16 * 12 * 4];
    let mut second: Vec<u8> = vec![0; 16 * 12 * 4];
    w.draw(&mut first);
    w.draw(&mut second);
    assert_eq!(first, second);
}

#[test]
fn update_changes_nothing_in_the_rendered_frame() {
    let mut w = World::new(16, 12);
    let mut before: Vec<u8> = vec![0; 16 * 12 * 4];
    w.draw(&mut before);
    w.update();
    let mut after: Vec<u8> = vec![0; 16 * 12 * 4];
    w.draw(&mut after);
    assert_eq!(before, after);
}

#[test]
fn full_frame_center_pixel_shades_the_sphere() {
    let w = World::new(320, 240);
    let mut frame: Vec<u8> = vec![0; 320 * 240 * 4];
    w.draw(&mut frame);
    let base: usize = (120 * 320 + 160) * 4;
    assert_eq!(&frame[base..base + 4], &[127, 127, 255, 255]);
    // the top rows miss everything and show the gradient: blue stays full
    assert_eq!(frame[3], 255);
    assert_eq!(frame[2], 255);
}

#[test]
fn log_error_formats_the_failure_and_its_causes() {
    let sources = vec!["boom".to_string(), "broken pipe".to_string(), "io".to_string()];
    let lines = log_error("pixels.render", &sources);
    assert_eq!(lines.len(), 3);
    assert_eq!(lines[0], "pixels.render() failed: boom");
    assert_eq!(lines[1], "  Caused by: broken pipe");
    assert_eq!(lines[2], "  Caused by: io");
}

#[test]
fn log_error_with_a_single_source_reports_one_line() {
    let sources = vec!["lost surface".to_string()];
    let lines = log_error("pixels.resize_surface", &sources);
    assert_eq!(lines, vec!["pixels.resize_surface() failed: lost surface".to_string()]);
}
