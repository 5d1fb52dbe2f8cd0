use rays::hittable::HittableList;
use rays::material::{Lambertian, Material};
use rays::ray::Ray;
use rays::sphere::Sphere;
use rays::vec3::Vec3;
use rays::SCALE;

const S: i128 = SCALE;
const T_FAR: i128 = 0x4_0000_0000;

fn gray() -> Material {
    Material::Lambertian(Lambertian::new(Vec3::new(32768, 32768, 32768)))
}

#[test]
fn sphere_head_on_hit() {
    // fired straight at the center from distance 2, a unit sphere is
    // hit at t = 2 - 1 = 1, on the front face, with the normal
    // pointing back at the ray origin
    let sphere = Sphere::new(0, 0, -2 * S, S, gray());
    let ray = Ray::new(Vec3::zeros(), Vec3::new(0, 0, -S));
    let rec = sphere.hit(&ray, 65, T_FAR).expect("head-on ray must hit");
    assert_eq!(rec.t, S);
    assert_eq!(rec.p, Vec3::new(0, 0, -S));
    assert!(rec.front_face);
    assert_eq!(rec.normal, Vec3::new(0, 0, S));
}

#[test]
fn sphere_miss() {
    // perpendicular offset 3 exceeds the radius 1: no hit
    let sphere = Sphere::new(3 * S, 0, -2 * S, S, gray());
    let ray = Ray::new(Vec3::zeros(), Vec3::new(0, 0, -S));
    assert!(sphere.hit(&ray, 65, T_FAR).is_none());
}

#[test]
fn sphere_behind_ray_misses() {
    let sphere = Sphere::new(0, 0, 2 * S, S, gray());
    let ray = Ray::new(Vec3::zeros(), Vec3::new(0, 0, -S));
    assert!(sphere.hit(&ray, 65, T_FAR).is_none());
}

#[test]
fn sphere_inside_hit_is_back_face() {
    // from the center, the ray strikes the inside of the surface
    let sphere = Sphere::new(0, 0, 0, S, gray());
    let ray = Ray::new(Vec3::zeros(), Vec3::new(0, 0, -S));
    let rec = sphere.hit(&ray, 65, T_FAR).expect("must hit from inside");
    assert_eq!(rec.t, S);
    assert!(!rec.front_face);
    assert_eq!(rec.normal, Vec3::new(0, 0, S));
}

#[test]
fn list_returns_closest_regardless_of_order() {
    // two overlapping spheres on the same axis: either insertion order
    // yields the nearer parameter and point
    let a = Sphere::new(0, 0, -2 * S, S, gray());
    let b = Sphere::new(0, 0, -3 * S, 98304, gray());
    let ray = Ray::new(Vec3::zeros(), Vec3::new(0, 0, -S));

    let a2 = Sphere::new(0, 0, -2 * S, S, gray());
    let b2 = Sphere::new(0, 0, -3 * S, 98304, gray());
    let list_ab = HittableList::new(vec![a, b]);
    let list_ba = HittableList::new(vec![b2, a2]);

    let rec_ab = list_ab.hit(&ray, 65, T_FAR).expect("must hit");
    let rec_ba = list_ba.hit(&ray, 65, T_FAR).expect("must hit");
    assert_eq!(rec_ab.t, S);
    assert_eq!(rec_ab.t, rec_ba.t);
    assert_eq!(rec_ab.p, rec_ba.p);
}

#[test]
fn list_narrows_to_nearest() {
    // the nearer sphere wins even when the farther one comes first
    let far = Sphere::new(0, 0, -4 * S, S, gray());
    let near = Sphere::new(0, 0, -2 * S, S, gray());
    let list = HittableList::new(vec![far, near]);
    let ray = Ray::new(Vec3::zeros(), Vec3::new(0, 0, -S));
    let rec = list.hit(&ray, 65, T_FAR).expect("must hit");
    assert_eq!(rec.t, S);
}

#[test]
fn empty_list_misses() {
    let list = HittableList::new(Vec::new());
    let ray = Ray::new(Vec3::zeros(), Vec3::new(0, 0, -S));
    assert!(list.hit(&ray, 65, T_FAR).is_none());
}
