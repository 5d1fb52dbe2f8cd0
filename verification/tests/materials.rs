use rays::hittable::HitRecord;
use rays::material::{Dielectric, Lambertian, Material, Metal};
use rays::ray::Ray;
use rays::vec3::Vec3;
use rays::SCALE;

const S: i128 = SCALE;

fn ground_record(material: Material) -> HitRecord {
    HitRecord {
        p: Vec3::new(0, 0, -2 * S),
        normal: Vec3::new(0, 0, S),
        t: S,
        front_face: true,
        material,
    }
}

#[test]
fn lambertian_always_scatters() {
    let albedo = Vec3::new(52429, 52429, 0);
    let lam = Lambertian::new(albedo);
    let rec = ground_record(Material::Lambertian(lam));
    let r_in = Ray::new(Vec3::zeros(), Vec3::new(0, 0, -S));
    for _ in 0..16 {
        let res = lam.scatter(&r_in, &rec);
        let (scattered, attenuation) = res.expect("diffuse material must always scatter");
        assert_eq!(attenuation, albedo);
        assert_eq!(scattered.origin, rec.p);
    }
}

#[test]
fn dielectric_always_scatters() {
    let glass = Dielectric::new(98304);
    let rec = ground_record(Material::Dielectric(glass));
    let r_in = Ray::new(Vec3::zeros(), Vec3::new(0, 0, -S));
    for _ in 0..16 {
        let res = glass.scatter(&r_in, &rec);
        let (scattered, attenuation) = res.expect("dielectric must always scatter");
        assert_eq!(attenuation, Vec3::new(S, S, S));
        assert_eq!(scattered.origin, rec.p);
    }
}

#[test]
fn dielectric_negative_index_scatters() {
    // the degenerate negative refractive index still always scatters
    let odd = Dielectric::new(-26214);
    let rec = ground_record(Material::Dielectric(odd));
    let r_in = Ray::new(Vec3::zeros(), Vec3::new(0, 0, -S));
    for _ in 0..16 {
        assert!(odd.scatter(&r_in, &rec).is_some());
    }
}

#[test]
fn metal_rejects_grazing() {
    // a grazing ray reflects along the surface; its dot product with
    // the normal is zero, so the metal absorbs it
    let metal = Metal::new(Vec3::new(52429, 52429, 52429), 0);
    let rec = ground_record(Material::Metal(metal));
    let r_in = Ray::new(Vec3::zeros(), Vec3::new(S, 0, 0));
    let res = metal.scatter_with(&r_in, &rec, &Vec3::zeros());
    assert!(res.is_none());
}

#[test]
fn metal_reflects_head_on() {
    let albedo = Vec3::new(52429, 52429, 52429);
    let metal = Metal::new(albedo, 0);
    let rec = ground_record(Material::Metal(metal));
    let r_in = Ray::new(Vec3::zeros(), Vec3::new(0, 0, -S));
    let (scattered, attenuation) =
        metal.scatter(&r_in, &rec).expect("head-on reflection points out of the surface");
    assert_eq!(scattered.dir, Vec3::new(0, 0, S));
    assert_eq!(attenuation, albedo);
}
