use rays::camera::Camera;
use rays::hittable::HittableList;
use rays::material::{Lambertian, Material};
use rays::ppm::color_components;
use rays::ray::Ray;
use rays::renderer::Renderer;
use rays::sphere::Sphere;
use rays::vec3::Vec3;
use rays::SCALE;

const S: i128 = SCALE;

/// A single large diffuse ground sphere below the camera.
fn ground_world() -> HittableList {
    let ground = Material::Lambertian(Lambertian::new(Vec3::new(52429, 52429, 0)));
    // center (0, -100.5, -1), radius 100
    let sphere = Sphere::new(0, -6586368, -S, 100 * S, ground);
    HittableList::new(vec![sphere])
}

/// A square 90-degree camera at the origin.
fn unit_camera() -> Camera {
    Camera::new(S, S)
}

fn pixel(frame: &[u8], width: usize, col: usize, row: usize) -> [u8; 4] {
    let k = (row * width + col) * 4;
    [frame[k], frame[k + 1], frame[k + 2], frame[k + 3]]
}

#[test]
fn ray_color_depth_zero_is_black() {
    let renderer = Renderer::new(8, 8, 50, 1);
    let world = ground_world();
    let down = Ray::new(Vec3::zeros(), Vec3::new(0, -S, 0));
    assert_eq!(renderer.ray_color(&world, &down, 0), Vec3::zeros());
    let up = Ray::new(Vec3::zeros(), Vec3::new(0, S, 0));
    assert_eq!(renderer.ray_color(&world, &up, 0), Vec3::zeros());
}

#[test]
fn ray_color_miss_is_sky_gradient() {
    let renderer = Renderer::new(8, 8, 50, 1);
    let world = HittableList::new(Vec::new());
    // level ray: halfway blend of white and light blue
    let level = Ray::new(Vec3::zeros(), Vec3::new(0, 0, -S));
    assert_eq!(renderer.ray_color(&world, &level, 50), Vec3::new(49152, 55705, 65536));
}

#[test]
fn camera_center_ray_looks_forward() {
    let camera = unit_camera();
    let ray = camera.get_ray(S / 2, S / 2);
    assert_eq!(ray.origin, Vec3::zeros());
    assert_eq!(ray.dir, Vec3::new(0, 0, -S));
}

#[test]
fn camera_shift_moves_origin() {
    let mut camera = unit_camera();
    camera.shift(&Vec3::new(S, 0, -S));
    let before = camera.get_ray(S / 2, S / 2);
    assert_eq!(before.origin, Vec3::new(S, 0, -S));
    // the viewing basis is unchanged
    assert_eq!(before.dir, Vec3::new(0, 0, -S));
}

#[test]
fn ground_scene_sky_and_tint() {
    // one bounce allowed: pixels whose ray misses the ground show the
    // sky gradient; pixels that hit it show a ground-tinted color with
    // an empty blue channel (the ground albedo has none)
    let renderer = {
        let mut r = Renderer::new(8, 8, 5, 1);
        r.set_jitter(false);
        r
    };
    let world = ground_world();
    let camera = unit_camera();
    let mut frame = vec![0u8; 8 * 8 * 4];
    renderer.draw(&world, &camera, &mut frame);

    // top-center ray points up and misses: the exact sky color
    assert_eq!(pixel(&frame, 8, 4, 0), [193, 220, 255, 255]);
    // bottom-center ray strikes the ground
    let hit = pixel(&frame, 8, 4, 7);
    assert_eq!(hit[2], 0, "ground albedo has no blue");
    assert_eq!(hit[3], 255);
    assert!(hit[0] > 0, "a lit ground pixel is not black");
}

#[test]
fn deterministic_render_is_byte_identical() {
    // one centered sample per pixel and a one-ray budget: two draws of
    // the same scene agree byte for byte
    let renderer = {
        let mut r = Renderer::new(8, 8, 1, 1);
        r.set_jitter(false);
        r
    };
    let world = ground_world();
    let camera = unit_camera();
    let mut f1 = vec![0u8; 8 * 8 * 4];
    let mut f2 = vec![0u8; 8 * 8 * 4];
    renderer.draw(&world, &camera, &mut f1);
    renderer.draw(&world, &camera, &mut f2);
    assert_eq!(f1, f2);
    // with a single-ray budget every hit is black, every miss the sky
    assert_eq!(pixel(&f1, 8, 4, 0), [193, 220, 255, 255]);
    assert_eq!(pixel(&f1, 8, 4, 7), [0, 0, 0, 255]);
}

#[test]
fn draw_writes_every_pixel() {
    // 3x3 is smaller than the tile count: the partial tiling must
    // still cover every pixel
    let renderer = Renderer::new(3, 3, 1, 1);
    let world = HittableList::new(Vec::new());
    let camera = unit_camera();
    let mut frame = vec![7u8; 3 * 3 * 4];
    renderer.draw(&world, &camera, &mut frame);
    for p in 0..9 {
        assert_eq!(frame[4 * p + 3], 255, "alpha of pixel {p} was written");
        assert_ne!(frame[4 * p + 2], 7, "blue of pixel {p} was written");
    }
}

#[test]
fn ppm_color_components() {
    assert_eq!(color_components(&Vec3::new(32768, 65536, 0)), (127, 255, 0));
    // saturation at both ends
    assert_eq!(color_components(&Vec3::new(-5, 131072, 65536)), (0, 255, 255));
}
