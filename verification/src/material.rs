//! Materials: how a surface scatters an incoming ray.

use vstd::prelude::*;
use crate::fixed::{
    SCALE, iabs, fmul, fdiv, fsqrt, lemma_int_sqrt, lemma_fmul_bound, lemma_fdiv_bound,
    mul_fx, div_fx, sqrt_fx,
};
use crate::vec3::{
    Vec3, Color, V3, v3_in, v3_zero, s_add, s_scale, s_neg, s_dot, s_ls, s_unit, s_reflect,
    s_refract, lemma_dot_bound, lemma_scale_bound, lemma_square_nonneg, reflect, refract,
};
use crate::ray::{Ray, RayV};
use crate::hittable::{HitRecord, rec_wf};
use crate::sampling::rand_raw_in;

verus! {

/// A color whose channels all lie between zero and one.
pub open spec fn color01(c: V3) -> bool {
    0 <= c.x <= SCALE as int && 0 <= c.y <= SCALE as int && 0 <= c.z <= SCALE as int
}

/// A diffuse surface: scatters in a random direction around the normal
/// and attenuates by its albedo.
#[derive(Clone, Copy, Debug, PartialEq, Eq, Structural)]
pub struct Lambertian {
    pub albedo: Color,
}

/// A mirror with a roughness parameter `fuzz` between zero and one.
#[derive(Clone, Copy, Debug, PartialEq, Eq, Structural)]
pub struct Metal {
    pub albedo: Color,
    pub fuzz: i128,
}

/// A clear refractive surface with refractive index `ir`.
#[derive(Clone, Copy, Debug, PartialEq, Eq, Structural)]
pub struct Dielectric {
    pub ir: i128,
}

/// The scattering behaviour of a surface.
#[derive(Clone, Copy, Debug, PartialEq, Eq, Structural)]
pub enum Material {
    Lambertian(Lambertian),
    Metal(Metal),
    Dielectric(Dielectric),
}

pub open spec fn lambertian_wf(m: Lambertian) -> bool {
    color01(m.albedo@)
}

pub open spec fn metal_wf(m: Metal) -> bool {
    color01(m.albedo@) && 0 <= m.fuzz <= SCALE as int
}

/// The refractive index must be far enough from zero for its
/// reciprocal to stay in range, and -1 exactly would put a zero
/// denominator into the reflectance formula.
pub open spec fn dielectric_wf(m: Dielectric) -> bool {
    8192 <= iabs(m.ir as int) <= 524288 && m.ir != -65536
}

pub open spec fn mat_wf(m: Material) -> bool {
    match m {
        Material::Lambertian(l) => lambertian_wf(l),
        Material::Metal(me) => metal_wf(me),
        Material::Dielectric(d) => dielectric_wf(d),
    }
}

/// Schlick's approximation of the reflectance of a dielectric at a
/// given viewing angle.
pub open spec fn s_schlick(cosine: int, ratio: int) -> int {
    let s = SCALE as int;
    let r0 = fdiv(s - ratio, s + ratio);
    let r0sq = fmul(r0, r0);
    let x = s - cosine;
    let p2 = fmul(x, x);
    let p4 = fmul(p2, p2);
    let p5 = fmul(p4, x);
    r0sq + fmul(s - r0sq, p5)
}

/// The direction a dielectric sends an incoming unit direction, once
/// the uniform draw deciding reflection against refraction is fixed.
pub open spec fn s_dielectric_dir(ir: int, unit: V3, normal: V3, front: bool, draw: int) -> V3 {
    let s = SCALE as int;
    let ratio = if front { fdiv(s, ir) } else { ir };
    let d = s_dot(s_neg(unit), normal);
    let cos_theta = if d <= s { d } else { s };
    let sin_sq = s - fmul(cos_theta, cos_theta);
    let sin_theta = fsqrt(if sin_sq >= 0 { sin_sq } else { 0 });
    let cannot_refract = fmul(ratio, sin_theta) > s;
    if cannot_refract || s + ratio == 0 || s_schlick(cos_theta, ratio) > draw {
        s_reflect(unit, normal)
    } else {
        s_refract(unit, normal, ratio)
    }
}

impl Lambertian {
    pub fn new(albedo: Color) -> (r: Lambertian)
        requires
            color01(albedo@),
        ensures
            r.albedo == albedo,
            lambertian_wf(r),
    {
        Lambertian { albedo }
    }

    /// Diffuse scattering: always scatters, in the direction of the
    /// normal plus a random unit vector, falling back to the bare
    /// normal when that sum vanishes. Attenuation is the albedo.
    pub fn scatter(&self, _r_in: &Ray, rec: &HitRecord) -> (res: Option<(Ray, Color)>)
        requires
            lambertian_wf(*self),
            rec_wf(*rec),
        ensures
            res matches Some(sc) && {
                &&& sc.1 == self.albedo
                &&& sc.0.origin == rec.p
                &&& v3_in(sc.0.dir@, 4 * (SCALE as int))
                &&& rec.normal@ != v3_zero() ==> sc.0.dir@ != v3_zero()
            },
    {
        let u = Vec3::random_unit_vector();
        let mut scatter_direction = rec.normal.add(&u);
        if scatter_direction.near_zero() {
            scatter_direction = rec.normal;
        }
        let scattered = Ray::new(rec.p, scatter_direction);
        Some((scattered, self.albedo))
    }
}

impl Metal {
    pub fn new(albedo: Color, fuzz: i128) -> (r: Metal)
        requires
            color01(albedo@),
            0 <= fuzz <= SCALE as int,
        ensures
            r.albedo == albedo,
            r.fuzz == fuzz,
            metal_wf(r),
    {
        Metal { albedo, fuzz }
    }

    /// Mirror scattering with the roughness offset fixed: reflects the
    /// unit incoming direction about the normal, perturbs it by `fuzz`
    /// times the offset, and accepts the result exactly when it points
    /// out of the surface.
    pub fn scatter_with(&self, r_in: &Ray, rec: &HitRecord, offset: &Vec3) -> (res: Option<
        (Ray, Color),
    >)
        requires
            metal_wf(*self),
            rec_wf(*rec),
            v3_in(r_in@.dir, 0x10_0000_0000),
            s_ls(r_in@.dir) >= 1,
            v3_in(offset@, SCALE as int),
        ensures
            ({
                let dir = s_add(
                    s_reflect(s_unit(r_in@.dir), rec.normal@),
                    s_scale(offset@, self.fuzz as int),
                );
                if s_dot(dir, rec.normal@) > 0 {
                    res matches Some(sc) && sc.0.origin == rec.p && sc.0.dir@ == dir && sc.1
                        == self.albedo && v3_in(dir, 26279936)
                } else {
                    res is None
                }
            }),
    {
        let unit = r_in.dir.unit_vec();
        let reflected = reflect(&unit, &rec.normal);
        proof {
            assert((65536int * 65536int) / 65536int == 65536int);
            lemma_scale_bound(offset@, self.fuzz as int, 65536, 65536);
        }
        let perturbation = offset.scale(self.fuzz);
        let dir = reflected.add(&perturbation);
        let scattered = Ray::new(rec.p, dir);
        if scattered.dir.dot(&rec.normal) > 0 {
            Some((scattered, self.albedo))
        } else {
            None
        }
    }

    /// Mirror scattering: like `scatter_with`, with the offset drawn
    /// uniformly from the unit sphere.
    pub fn scatter(&self, r_in: &Ray, rec: &HitRecord) -> (res: Option<(Ray, Color)>)
        requires
            metal_wf(*self),
            rec_wf(*rec),
            v3_in(r_in@.dir, 0x10_0000_0000),
            s_ls(r_in@.dir) >= 1,
        ensures
            res matches Some(sc) ==> {
                &&& sc.0.origin == rec.p
                &&& v3_in(sc.0.dir@, 26279936)
                &&& s_dot(sc.0.dir@, rec.normal@) > 0
                &&& sc.1 == self.albedo
            },
    {
        let offset = Vec3::random_in_unit_sphere();
        self.scatter_with(r_in, rec, &offset)
    }
}

impl Dielectric {
    pub fn new(ir: i128) -> (r: Dielectric)
        requires
            8192 <= iabs(ir as int) <= 524288,
            ir != -65536,
        ensures
            r.ir == ir,
            dielectric_wf(r),
    {
        Dielectric { ir }
    }

    /// Refractive scattering with the reflectance draw fixed: always
    /// scatters, reflecting or refracting the unit incoming direction
    /// by Snell's law, total internal reflection and Schlick's
    /// approximation. Attenuation is full white.
    pub fn scatter_with(&self, r_in: &Ray, rec: &HitRecord, draw: i128) -> (res: Option<
        (Ray, Color),
    >)
        requires
            dielectric_wf(*self),
            rec_wf(*rec),
            v3_in(r_in@.dir, 0x10_0000_0000),
            s_ls(r_in@.dir) >= 1,
        ensures
            res matches Some(sc) && {
                &&& sc.0.origin == rec.p
                &&& sc.0.dir@ == s_dielectric_dir(
                    self.ir as int,
                    s_unit(r_in@.dir),
                    rec.normal@,
                    rec.front_face,
                    draw as int,
                )
                &&& sc.1@ == (V3 { x: SCALE as int, y: SCALE as int, z: SCALE as int })
                &&& v3_in(sc.0.dir@, 0x2_0000_0000)
            },
    {
        let s = SCALE;
        let attenuation = Vec3::new(s, s, s);
        let refraction_ratio = if rec.front_face {
            proof {
                lemma_fdiv_bound(s as int, self.ir as int, 65536, 8192);
                assert((65536int * 65536int) / 8192int == 524288int);
            }
            div_fx(s, self.ir)
        } else {
            self.ir
        };
        let unit_direction = r_in.dir.unit_vec();
        let minus_unit = unit_direction.neg();
        proof {
            assert((131072int * 131072int) / 65536int == 262144int);
            lemma_dot_bound(minus_unit@, rec.normal@, 131072, 131072);
        }
        let d = minus_unit.dot(&rec.normal);
        let cos_theta = if d <= s { d } else { s };
        proof {
            assert((786432int * 786432int) / 65536int == 9437184int);
            lemma_fmul_bound(cos_theta as int, cos_theta as int, 786432, 786432);
            lemma_square_nonneg(cos_theta as int);
        }
        let cos_sq = mul_fx(cos_theta, cos_theta);
        let sin_sq = if s - cos_sq >= 0 {
            s - cos_sq
        } else {
            0
        };
        let sin_theta = sqrt_fx(sin_sq);
        proof {
            lemma_int_sqrt(sin_sq as int * 65536);
            assert(sin_theta <= 65536) by (nonlinear_arith)
                requires
                    0 <= sin_theta,
                    sin_theta * sin_theta <= sin_sq as int * 65536,
                    sin_sq as int <= 65536,
            ;
            lemma_fmul_bound(refraction_ratio as int, sin_theta as int, 524288, 65536);
        }
        let cannot_refract = mul_fx(refraction_ratio, sin_theta) > s;
        let must_reflect = if cannot_refract || s + refraction_ratio == 0 {
            true
        } else {
            let refl = reflectance(cos_theta, refraction_ratio);
            refl > draw
        };
        let direction = if must_reflect {
            reflect(&unit_direction, &rec.normal)
        } else {
            refract(&unit_direction, &rec.normal, refraction_ratio)
        };
        let scattered = Ray::new(rec.p, direction);
        Some((scattered, attenuation))
    }

    /// Refractive scattering: like `scatter_with`, with the draw made
    /// uniformly from `[0, 1)`.
    pub fn scatter(&self, r_in: &Ray, rec: &HitRecord) -> (res: Option<(Ray, Color)>)
        requires
            dielectric_wf(*self),
            rec_wf(*rec),
            v3_in(r_in@.dir, 0x10_0000_0000),
            s_ls(r_in@.dir) >= 1,
        ensures
            res matches Some(sc) && {
                &&& sc.0.origin == rec.p
                &&& sc.1@ == (V3 { x: SCALE as int, y: SCALE as int, z: SCALE as int })
                &&& v3_in(sc.0.dir@, 0x2_0000_0000)
            },
    {
        let draw = rand_raw_in(0, SCALE);
        self.scatter_with(r_in, rec, draw)
    }
}

/// Schlick's approximation for the reflectance of a dielectric.
fn reflectance(cosine: i128, ref_idx: i128) -> (r: i128)
    requires
        iabs(cosine as int) <= 786432,
        iabs(ref_idx as int) <= 524288,
        (SCALE as int) + ref_idx != 0,
    ensures
        r == s_schlick(cosine as int, ref_idx as int),
{
    let s = SCALE;
    proof {
        lemma_fdiv_bound(s as int - ref_idx, s as int + ref_idx, 589824, 1);
        assert((589824int * 65536int) / 1int == 38654705664int);
    }
    let r0 = div_fx(s - ref_idx, s + ref_idx);
    proof {
        lemma_fmul_bound(r0 as int, r0 as int, 38654705664, 38654705664);
        assert((38654705664int * 38654705664int) / 65536int == 22799473113563136int);
    }
    let r0sq = mul_fx(r0, r0);
    let x = s - cosine;
    proof {
        lemma_fmul_bound(x as int, x as int, 851968, 851968);
        assert((851968int * 851968int) / 65536int == 11075584int);
    }
    let p2 = mul_fx(x, x);
    proof {
        lemma_fmul_bound(p2 as int, p2 as int, 11075584, 11075584);
        assert((11075584int * 11075584int) / 65536int == 1871773696int);
    }
    let p4 = mul_fx(p2, p2);
    proof {
        lemma_fmul_bound(p4 as int, x as int, 1871773696, 851968);
        assert((1871773696int * 851968int) / 65536int == 24333058048int);
    }
    let p5 = mul_fx(p4, x);
    proof {
        lemma_square_nonneg(r0 as int);
        lemma_fmul_bound(s as int - r0sq, p5 as int, 22799473113563136, 24333058048);
    }
    r0sq + mul_fx(s - r0sq, p5)
}

impl Material {
    /// How this material scatters `r_in` at the hit `rec`: an optional
    /// scattered ray from the hit point and an attenuation color, or
    /// nothing when the ray is absorbed.
    pub fn scatter(&self, r_in: &Ray, rec: &HitRecord) -> (res: Option<(Ray, Color)>)
        requires
            mat_wf(*self),
            rec_wf(*rec),
            v3_in(r_in@.dir, 0x10_0000_0000),
            s_ls(r_in@.dir) >= 1,
        ensures
            res matches Some(sc) ==> {
                &&& sc.0.origin == rec.p
                &&& v3_in(sc.0.dir@, 0x2_0000_0000)
                &&& color01(sc.1@)
            },
            self matches Material::Lambertian(_) ==> res is Some,
            self matches Material::Dielectric(_) ==> res is Some,
    {
        match self {
            Material::Lambertian(l) => l.scatter(r_in, rec),
            Material::Metal(m) => m.scatter(r_in, rec),
            Material::Dielectric(d) => d.scatter(r_in, rec),
        }
    }
}

} // verus!
