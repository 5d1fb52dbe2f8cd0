//! Spheres and their ray intersection.

use vstd::prelude::*;
use crate::fixed::{
    SCALE, iabs, tdiv, fmul, fdiv, fsqrt, lemma_int_sqrt, lemma_fmul_bound, lemma_fmul_unit,
    mul_fx, sqrt_fx, div_fx,
};
use crate::vec3::{
    Vec3, Point, V3, v3_in, s_add, s_sub, s_neg, s_dot, s_ls, s_len, s_unit, lemma_dot_bound,
    lemma_ls_parts, lemma_square_nonneg, VB,
};
use crate::ray::{Ray, RayV, s_at};
use crate::material::{Material, mat_wf};
use crate::hittable::{HitRecord, HitV, rec_wf};

verus! {

/// A sphere owning its material.
pub struct Sphere {
    pub center: Point,
    pub radius: i128,
    pub material: Material,
}

/// A sphere the renderer accepts: coordinates and radius within the
/// world range, material well formed.
pub open spec fn sphere_wf(s: Sphere) -> bool {
    &&& v3_in(s.center@, 0x1_0000_0000)
    &&& iabs(s.radius as int) <= 0x1_0000_0000
    &&& mat_wf(s.material)
}

/// The accepted root of the intersection quadratic, if any: the
/// smaller root when it lies within `[t_min, t_max]`, else the larger
/// root when it does, else nothing. A ray with a direction too short
/// to square hits nothing.
pub open spec fn sph_root(s: Sphere, r: RayV, t_min: int, t_max: int) -> Option<int> {
    let oc = s_sub(r.origin, s.center@);
    let a = s_ls(r.dir);
    let half_b = s_dot(oc, r.dir);
    let c = s_ls(oc) - fmul(s.radius as int, s.radius as int);
    let disc = fmul(half_b, half_b) - fmul(a, c);
    if a == 0 || disc < 0 {
        None
    } else {
        let sq = fsqrt(disc);
        let root1 = fdiv(-half_b - sq, a);
        if t_min <= root1 <= t_max {
            Some(root1)
        } else {
            let root2 = fdiv(-half_b + sq, a);
            if t_min <= root2 <= t_max {
                Some(root2)
            } else {
                None
            }
        }
    }
}

/// The outward unit normal at the point a parameter `t` along the ray:
/// the direction from the center to that point, normalized; a fixed
/// axis direction when the point is too close to the center to
/// normalize.
pub open spec fn sph_outward(s: Sphere, r: RayV, t: int) -> V3 {
    let d = s_sub(s_at(r, t), s.center@);
    if s_ls(d) >= 1 {
        s_unit(d)
    } else {
        V3 { x: 0, y: 0, z: SCALE as int }
    }
}

/// The full intersection result: the accepted root, the point there,
/// and the outward normal oriented against the ray.
pub open spec fn sph_hit(s: Sphere, r: RayV, t_min: int, t_max: int) -> Option<HitV> {
    match sph_root(s, r, t_min, t_max) {
        Some(t) => {
            let p = s_at(r, t);
            let outward = sph_outward(s, r, t);
            let front = s_dot(r.dir, outward) < 0;
            Some(
                HitV {
                    p,
                    normal: if front {
                        outward
                    } else {
                        s_neg(outward)
                    },
                    t,
                    front,
                },
            )
        },
        None => None,
    }
}

/// Narrowing the far end of the parameter range keeps exactly the hits
/// that still lie within it: the accepted root does not otherwise
/// depend on the range.
pub proof fn lemma_sph_hit_narrow(s: Sphere, r: RayV, t_min: int, t1: int, t2: int)
    requires
        t2 <= t1,
    ensures
        sph_hit(s, r, t_min, t2) == (match sph_hit(s, r, t_min, t1) {
            Some(h) => if h.t <= t2 {
                Some(h)
            } else {
                None::<HitV>
            },
            None => None::<HitV>,
        }),
{
    let oc = s_sub(r.origin, s.center@);
    let a = s_ls(r.dir);
    let half_b = s_dot(oc, r.dir);
    let c = s_ls(oc) - fmul(s.radius as int, s.radius as int);
    let disc = fmul(half_b, half_b) - fmul(a, c);
    if a == 0 || disc < 0 {
    } else {
        lemma_int_sqrt(disc * (SCALE as int));
        let sq = fsqrt(disc);
        lemma_ls_parts(r.dir);
        crate::fixed::lemma_tdiv_mono((-half_b - sq) * (SCALE as int), (-half_b + sq) * (SCALE as int), a);
        assert((-half_b - sq) * (SCALE as int) <= (-half_b + sq) * (SCALE as int))
            by (nonlinear_arith)
            requires
                0 <= sq,
        ;
    }
}

/// An accepted hit lies within the requested range, at the point the
/// ray reaches at its parameter.
pub proof fn lemma_sph_hit_in_range(s: Sphere, r: RayV, t_min: int, t_max: int)
    ensures
        sph_hit(s, r, t_min, t_max) matches Some(h) ==> t_min <= h.t <= t_max && h.p == s_at(
            r,
            h.t,
        ),
{
}

/// A ray fired from outside a sphere straight at its center hits it at
/// the distance to the center minus the radius, on the front face,
/// with the normal pointing from the center back toward the ray's
/// origin. The distance and radius are quarter-steps (multiples of
/// 1/256), at which every step of the arithmetic is exact; at other
/// values rounding can move the hit by a step.
pub proof fn lemma_head_on_hit(s: Sphere, r: RayV, o: V3, dist: int, t_min: int, t_max: int)
    requires
        r.origin == o,
        r.dir == (V3 { x: 0, y: 0, z: -(SCALE as int) }),
        s.center@ == (V3 { x: o.x, y: o.y, z: o.z - dist }),
        dist % 256 == 0,
        (s.radius as int) % 256 == 0,
        256 <= s.radius as int,
        (s.radius as int) < dist,
        0 <= t_min,
        t_min <= dist - s.radius as int,
        dist - (s.radius as int) <= t_max,
    ensures
        sph_hit(s, r, t_min, t_max) matches Some(h) && {
            &&& h.t == dist - s.radius as int
            &&& h.p == (V3 { x: o.x, y: o.y, z: o.z - (dist - s.radius as int) })
            &&& h.front
            &&& h.normal == (V3 { x: 0, y: 0, z: SCALE as int })
        },
{
    let sc = SCALE as int;
    let rad = s.radius as int;
    let oc = s_sub(r.origin, s.center@);
    assert(oc == V3 { x: 0, y: 0, z: dist });
    lemma_fmul_zero_all();
    lemma_fmul_unit(-sc, -sc);
    lemma_fmul_unit(-sc, dist);
    assert(s_ls(r.dir) == sc);
    assert(s_dot(oc, r.dir) == -dist);
    lemma_sq_exact(dist);
    lemma_sq_exact(rad);
    let c = s_ls(oc) - fmul(rad, rad);
    assert(c == fmul(dist, dist) - fmul(rad, rad));
    lemma_fmul_unit(sc, c);
    let disc = fmul(-dist, -dist) - fmul(sc, c);
    assert(fmul(-dist, -dist) == fmul(dist, dist)) by {
        assert((-dist) * (-dist) == dist * dist) by (nonlinear_arith);
    }
    assert(disc == fmul(rad, rad));
    lemma_square_nonneg(rad);
    lemma_isqrt_of_square(rad, fmul(rad, rad));
    let sq = fsqrt(disc);
    assert(sq == rad);
    assert(fdiv(dist - rad, sc) == dist - rad) by {
        lemma_fmul_unit(sc, dist - rad);
        assert((dist - rad) * sc == sc * (dist - rad)) by (nonlinear_arith);
    }
    let t = dist - rad;
    assert(sph_root(s, r, t_min, t_max) == Some(t));
    lemma_fmul_unit(-sc, t);
    assert(s_at(r, t) == V3 { x: o.x, y: o.y, z: o.z - t });
    let d = s_sub(s_at(r, t), s.center@);
    assert(d == V3 { x: 0, y: 0, z: rad });
    assert(s_ls(d) == fmul(rad, rad));
    assert(fmul(rad, rad) >= 1) by (nonlinear_arith)
        requires
            rad >= 256,
            fmul(rad, rad) == (rad * rad) / 65536,
    ;
    assert(s_len(d) == rad) by {
        lemma_sq_exact(rad);
        lemma_isqrt_of_square(rad, fmul(rad, rad));
    }
    assert(fdiv(rad, rad) == sc) by {
        assert(rad * sc == sc * rad) by (nonlinear_arith);
        assert(tdiv(rad * sc, rad) == sc) by (nonlinear_arith)
            requires
                rad >= 1,
                sc == 65536,
                tdiv(rad * sc, rad) == (rad * sc) / rad,
        ;
    }
    assert(fdiv(0, rad) == 0);
    assert(sph_outward(s, r, t) == V3 { x: 0, y: 0, z: sc });
    lemma_fmul_unit(-sc, sc);
    assert(s_dot(r.dir, sph_outward(s, r, t)) == -sc);
}

/// A ray that passes a sphere with a perpendicular clearance whose
/// square exceeds the radius's square by at least one whole unit
/// misses it. A clearance below that margin can round to the same
/// fixed-point square as the radius and is outside this statement.
pub proof fn lemma_perpendicular_miss(
    s: Sphere,
    r: RayV,
    o: V3,
    dx: int,
    dist: int,
    t_min: int,
    t_max: int,
)
    requires
        r.origin == o,
        r.dir == (V3 { x: 0, y: 0, z: -(SCALE as int) }),
        s.center@ == (V3 { x: o.x + dx, y: o.y, z: o.z - dist }),
        dx * dx >= s.radius as int * s.radius as int + 65536,
    ensures
        sph_hit(s, r, t_min, t_max) is None,
{
    let sc = SCALE as int;
    let rad = s.radius as int;
    let oc = s_sub(r.origin, s.center@);
    assert(oc == V3 { x: -dx, y: 0, z: dist });
    lemma_fmul_zero_all();
    lemma_fmul_unit(-sc, -sc);
    lemma_fmul_unit(-sc, dist);
    assert(s_ls(r.dir) == sc);
    assert(s_dot(oc, r.dir) == -dist);
    let c = s_ls(oc) - fmul(rad, rad);
    lemma_fmul_unit(sc, c);
    let disc = fmul(-dist, -dist) - fmul(sc, c);
    assert(fmul(-dist, -dist) == fmul(dist, dist)) by {
        assert((-dist) * (-dist) == dist * dist) by (nonlinear_arith);
    }
    assert(fmul(-dx, -dx) == fmul(dx, dx)) by {
        assert((-dx) * (-dx) == dx * dx) by (nonlinear_arith);
    }
    assert(disc == fmul(rad, rad) - fmul(dx, dx));
    lemma_square_nonneg(rad);
    lemma_square_nonneg(dx);
    assert(tdiv(rad * rad, sc) == (rad * rad) / 65536);
    assert(tdiv(dx * dx, sc) == (dx * dx) / 65536);
    assert((dx * dx) / 65536 > (rad * rad) / 65536) by (nonlinear_arith)
        requires
            dx * dx >= rad * rad + 65536,
            rad * rad >= 0,
    ;
}

/// Squares of quarter-step values are exact in fixed point.
proof fn lemma_sq_exact(x: int)
    requires
        x % 256 == 0,
    ensures
        fmul(x, x) * 65536 == x * x,
        fmul(x, x) == (x * x) / 65536,
{
    assert(x * x >= 0) by (nonlinear_arith);
    let k = x / 256;
    assert(x == 256 * k);
    assert(x * x == (k * k) * 65536) by (nonlinear_arith)
        requires
            x == 256 * k,
    ;
    vstd::arithmetic::div_mod::lemma_mod_multiples_basic(k * k, 65536);
    assert(tdiv(x * x, SCALE as int) == (x * x) / 65536);
    crate::fixed::lemma_div_exact(x * x, 65536);
    assert(((x * x) / 65536) * 65536 == x * x);
}

/// The fixed-point square root of an exact fixed-point square is the
/// value itself.
proof fn lemma_isqrt_of_square(x: int, q: int)
    requires
        0 <= x,
        q * 65536 == x * x,
    ensures
        fsqrt(q) == x,
{
    assert(x * x == x * x && x * x < (x + 1) * (x + 1)) by (nonlinear_arith)
        requires
            0 <= x,
    ;
    crate::fixed::lemma_int_sqrt_unique(q * (SCALE as int), x);
}

/// Products with a zero factor vanish.
proof fn lemma_fmul_zero_all()
    ensures
        forall|a: int| #[trigger] fmul(a, 0) == 0,
        forall|a: int| #[trigger] fmul(0, a) == 0,
{
    assert forall|a: int| #[trigger] fmul(a, 0) == 0 by {
        assert(a * 0 == 0) by (nonlinear_arith);
    }
    assert forall|a: int| #[trigger] fmul(0, a) == 0 by {
        assert(0 * a == 0) by (nonlinear_arith);
    }
}

impl Sphere {
    pub fn new(x: i128, y: i128, z: i128, r: i128, m: Material) -> (res: Sphere)
        requires
            iabs(x as int) <= 0x1_0000_0000,
            iabs(y as int) <= 0x1_0000_0000,
            iabs(z as int) <= 0x1_0000_0000,
            iabs(r as int) <= 0x1_0000_0000,
            mat_wf(m),
        ensures
            res.center@ == (V3 { x: x as int, y: y as int, z: z as int }),
            res.radius == r,
            res.material == m,
            sphere_wf(res),
    {
        Sphere { center: Point::new(x, y, z), radius: r, material: m }
    }

    /// The intersection of the ray with this sphere at a parameter in
    /// `[t_min, t_max]`, trying the smaller quadratic root first.
    pub fn hit(&self, r: &Ray, t_min: i128, t_max: i128) -> (res: Option<HitRecord>)
        requires
            sphere_wf(*self),
            v3_in(r@.origin, 0x10_0000_0000),
            v3_in(r@.dir, 0x10_0000_0000),
            0 <= t_min,
            0 <= t_max <= 0x4_0000_0000,
        ensures
            (res is Some) == (sph_hit(*self, r@, t_min as int, t_max as int) is Some),
            res matches Some(rec) ==> {
                &&& sph_hit(*self, r@, t_min as int, t_max as int) matches Some(h) && rec@ == h
                &&& rec.material == self.material
                &&& rec_wf(rec)
                &&& t_min <= rec.t <= t_max
            },
    {
        let oc: Vec3 = r.origin.sub(&self.center);
        proof {
            assert((68719476736int * 68719476736int) / 65536int == 72057594037927936int);
            lemma_dot_bound(r@.dir, r@.dir, 68719476736, 68719476736);
            lemma_ls_parts(r@.dir);
        }
        let a = r.dir.length_squared();
        if a == 0 {
            return None;
        }
        proof {
            assert((73014444032int * 68719476736int) / 65536int == 76561193665298432int);
            lemma_dot_bound(oc@, r@.dir, 73014444032, 68719476736);
            assert((73014444032int * 73014444032int) / 65536int == 81346268269379584int);
            lemma_dot_bound(oc@, oc@, 73014444032, 73014444032);
            assert((4294967296int * 4294967296int) / 65536int == 281474976710656int);
            lemma_fmul_bound(self.radius as int, self.radius as int, 4294967296, 4294967296);
        }
        let half_b = oc.dot(&r.dir);
        let c = oc.length_squared() - mul_fx(self.radius, self.radius);
        proof {
            assert((229683580995895296int * 229683580995895296int) / 65536int
                == 804970510545318523753155526656int);
            lemma_fmul_bound(half_b as int, half_b as int, 229683580995895296, 229683580995895296);
            assert((216172782113783808int * 244320279784849408int) / 65536int
                == 805898965574782558959329869824int);
            lemma_fmul_bound(a as int, c as int, 216172782113783808, 244320279784849408);
        }
        let discriminant = mul_fx(half_b, half_b) - mul_fx(a, c);
        if discriminant < 0 {
            return None;
        }
        let sqrt_d = sqrt_fx(discriminant);
        proof {
            lemma_int_sqrt(discriminant as int * 65536);
            assert(sqrt_d <= 0x1000_0000_0000_0000) by (nonlinear_arith)
                requires
                    0 <= sqrt_d,
                    sqrt_d * sqrt_d <= discriminant as int * 65536,
                    discriminant as int <= 1610869476120101082712485396480,
            ;
        }
        let root1 = div_fx(-half_b - sqrt_d, a);
        let root = if t_min <= root1 && root1 <= t_max {
            root1
        } else {
            let root2 = div_fx(-half_b + sqrt_d, a);
            if t_min <= root2 && root2 <= t_max {
                root2
            } else {
                return None;
            }
        };
        let t = root;
        let p = r.at(t);
        let d = p.sub(&self.center);
        let ls_d = d.length_squared();
        let outward_normal = if ls_d >= 1 {
            d.unit_vec()
        } else {
            Vec3::new(0, 0, SCALE)
        };
        let mut rec = HitRecord {
            p,
            normal: outward_normal,
            t,
            front_face: false,
            material: self.material,
        };
        rec.set_face_normal(r, &outward_normal);
        Some(rec)
    }
}

} // verus!
