//! Hit records and the scene: a flat list of spheres scanned for the
//! closest intersection.

use vstd::prelude::*;
use crate::fixed::SCALE;
use crate::vec3::{Vec3, Point, V3, v3_in, s_neg, s_dot, VB};
use crate::ray::{Ray, RayV};
use crate::material::{Material, mat_wf};
use crate::sphere::{Sphere, sphere_wf, sph_hit, lemma_sph_hit_narrow, lemma_sph_hit_in_range};

verus! {

/// The mathematical content of a hit record.
pub ghost struct HitV {
    pub p: V3,
    pub normal: V3,
    pub t: int,
    pub front: bool,
}

/// A ray-surface intersection: where, how far along the ray, the
/// surface normal oriented against the ray, and the struck material.
#[derive(Clone, Copy, Debug)]
pub struct HitRecord {
    pub p: Point,
    pub normal: Vec3,
    pub t: i128,
    pub front_face: bool,
    pub material: Material,
}

impl View for HitRecord {
    type V = HitV;

    open spec fn view(&self) -> HitV {
        HitV { p: self.p@, normal: self.normal@, t: self.t as int, front: self.front_face }
    }
}

/// The bounds every record produced by an intersection obeys.
pub open spec fn rec_wf(rec: HitRecord) -> bool {
    &&& v3_in(rec.p@, VB as int)
    &&& v3_in(rec.normal@, 2 * (SCALE as int))
    &&& 0 <= rec.t
    &&& mat_wf(rec.material)
}

impl HitRecord {
    /// Orients the stored normal against the ray: the outward normal
    /// itself when the ray strikes the front face, its negation when
    /// the ray strikes from inside.
    pub fn set_face_normal(&mut self, r: &Ray, outward_normal: &Vec3)
        requires
            v3_in(r@.dir, VB as int),
            v3_in(outward_normal@, VB as int),
        ensures
            final(self).front_face == (s_dot(r@.dir, outward_normal@) < 0),
            final(self).normal@ == if s_dot(r@.dir, outward_normal@) < 0 {
                outward_normal@
            } else {
                s_neg(outward_normal@)
            },
            final(self).p == old(self).p,
            final(self).t == old(self).t,
            final(self).material == old(self).material,
    {
        self.front_face = r.dir.dot(outward_normal) < 0;
        self.normal = if self.front_face {
            *outward_normal
        } else {
            outward_normal.neg()
        };
    }
}

/// The scene: an ordered collection of spheres.
pub struct HittableList {
    pub objects: Vec<Sphere>,
}

pub open spec fn list_wf(l: HittableList) -> bool {
    forall|i: int| 0 <= i < l.objects@.len() ==> sphere_wf(#[trigger] l.objects@[i])
}

/// What the scan over a prefix of the scene has found: the index of
/// the winning sphere and its hit, the parameter range narrowing to
/// the closest hit so far.
pub open spec fn scan_hit(objs: Seq<Sphere>, r: RayV, t_min: int, t_max: int) -> Option<
    (int, HitV),
>
    decreases objs.len(),
{
    if objs.len() == 0 {
        None
    } else {
        let prev = scan_hit(objs.drop_last(), r, t_min, t_max);
        let cur_max = match prev {
            Some(ih) => ih.1.t,
            None => t_max,
        };
        match sph_hit(objs.last(), r, t_min, cur_max) {
            Some(h) => Some((objs.len() - 1, h)),
            None => prev,
        }
    }
}

/// The scan finds the closest hit: its winner is one sphere's own
/// hit over the full range, and no sphere in the list hits at a
/// smaller parameter; when it finds nothing, no sphere hits at all.
pub proof fn lemma_scan_closest(objs: Seq<Sphere>, r: RayV, t_min: int, t_max: int)
    ensures
        scan_hit(objs, r, t_min, t_max) matches Some(ih) ==> {
            &&& 0 <= ih.0 < objs.len()
            &&& sph_hit(objs[ih.0], r, t_min, t_max) == Some(ih.1)
            &&& forall|j: int|
                0 <= j < objs.len() ==> match sph_hit(#[trigger] objs[j], r, t_min, t_max) {
                    Some(h) => h.t >= ih.1.t,
                    None => true,
                }
        },
        scan_hit(objs, r, t_min, t_max) is None ==> forall|j: int|
            0 <= j < objs.len() ==> sph_hit(#[trigger] objs[j], r, t_min, t_max) is None,
    decreases objs.len(),
{
    if objs.len() > 0 {
        let rest = objs.drop_last();
        lemma_scan_closest(rest, r, t_min, t_max);
        assert(forall|j: int| 0 <= j < rest.len() ==> rest[j] == objs[j]);
        let prev = scan_hit(rest, r, t_min, t_max);
        let last = objs.last();
        assert(last == objs[objs.len() - 1]);
        match prev {
            Some(ih0) => {
                lemma_sph_hit_narrow(last, r, t_min, t_max, ih0.1.t);
                lemma_sph_hit_in_range(last, r, t_min, t_max);
            },
            None => {},
        }
    }
}

/// Over two overlapping spheres, the scan returns the hit with the
/// smaller parameter whichever order they stand in: the insertion
/// order can decide only which record wins an exact tie, never its
/// parameter or its point.
pub proof fn lemma_hit_order_independent(
    a: Sphere,
    b: Sphere,
    r: RayV,
    t_min: int,
    t_max: int,
)
    ensures
        (scan_hit(seq![a, b], r, t_min, t_max) is Some) == (scan_hit(
            seq![b, a],
            r,
            t_min,
            t_max,
        ) is Some),
        scan_hit(seq![a, b], r, t_min, t_max) matches Some(x) ==> (scan_hit(
            seq![b, a],
            r,
            t_min,
            t_max,
        ) matches Some(y) && x.1.t == y.1.t && x.1.p == y.1.p),
{
    let sab = seq![a, b];
    let sba = seq![b, a];
    assert(sab.drop_last() =~= seq![a]);
    assert(sba.drop_last() =~= seq![b]);
    assert(seq![a].drop_last() =~= Seq::<Sphere>::empty());
    assert(seq![b].drop_last() =~= Seq::<Sphere>::empty());
    assert(sab.last() == b);
    assert(sba.last() == a);
    assert(seq![a].last() == a);
    assert(seq![b].last() == b);
    let ha = sph_hit(a, r, t_min, t_max);
    let hb = sph_hit(b, r, t_min, t_max);
    lemma_sph_hit_in_range(a, r, t_min, t_max);
    lemma_sph_hit_in_range(b, r, t_min, t_max);
    assert(scan_hit(Seq::<Sphere>::empty(), r, t_min, t_max) is None);
    let pa = scan_hit(seq![a], r, t_min, t_max);
    let pb = scan_hit(seq![b], r, t_min, t_max);
    assert(pa == match ha {
        Some(h) => Some((0int, h)),
        None => None::<(int, HitV)>,
    });
    assert(pb == match hb {
        Some(h) => Some((0int, h)),
        None => None::<(int, HitV)>,
    });
    let cma = match pa {
        Some(ih) => ih.1.t,
        None => t_max,
    };
    let cmb = match pb {
        Some(ih) => ih.1.t,
        None => t_max,
    };
    assert(scan_hit(sab, r, t_min, t_max) == match sph_hit(b, r, t_min, cma) {
        Some(h) => Some((1int, h)),
        None => pa,
    });
    assert(scan_hit(sba, r, t_min, t_max) == match sph_hit(a, r, t_min, cmb) {
        Some(h) => Some((1int, h)),
        None => pb,
    });
    match (ha, hb) {
        (Some(x), Some(y)) => {
            lemma_sph_hit_narrow(b, r, t_min, t_max, x.t);
            lemma_sph_hit_narrow(a, r, t_min, t_max, y.t);
        },
        (Some(x), None) => {
            lemma_sph_hit_narrow(b, r, t_min, t_max, x.t);
        },
        (None, Some(y)) => {
            lemma_sph_hit_narrow(a, r, t_min, t_max, y.t);
        },
        (None, None) => {},
    }
}

/// A ray whose direction is too short to square hits nothing at all.
pub proof fn lemma_scan_zero_dir(objs: Seq<Sphere>, r: RayV, t_min: int, t_max: int)
    requires
        crate::vec3::s_ls(r.dir) == 0,
    ensures
        scan_hit(objs, r, t_min, t_max) is None,
    decreases objs.len(),
{
    if objs.len() > 0 {
        lemma_scan_zero_dir(objs.drop_last(), r, t_min, t_max);
    }
}

impl HittableList {
    pub fn new(objects: Vec<Sphere>) -> (r: HittableList)
        ensures
            r.objects@ == objects@,
    {
        HittableList { objects }
    }

    /// The closest intersection of the ray with any sphere at a
    /// parameter in `[t_min, t_max]`, found by scanning every sphere
    /// while narrowing the range to the closest hit so far.
    pub fn hit(&self, r: &Ray, t_min: i128, t_max: i128) -> (res: Option<HitRecord>)
        requires
            list_wf(*self),
            v3_in(r@.origin, 0x10_0000_0000),
            v3_in(r@.dir, 0x10_0000_0000),
            0 <= t_min,
            0 <= t_max <= 0x4_0000_0000,
        ensures
            (res is Some) == (scan_hit(self.objects@, r@, t_min as int, t_max as int) is Some),
            res matches Some(rec) ==> {
                &&& scan_hit(self.objects@, r@, t_min as int, t_max as int) matches Some(ih)
                    && rec@ == ih.1 && 0 <= ih.0 < self.objects@.len() && rec.material
                    == self.objects@[ih.0].material && sph_hit(
                    self.objects@[ih.0],
                    r@,
                    t_min as int,
                    t_max as int,
                ) == Some(ih.1)
                &&& forall|j: int|
                    0 <= j < self.objects@.len() ==> match sph_hit(
                        #[trigger] self.objects@[j],
                        r@,
                        t_min as int,
                        t_max as int,
                    ) {
                        Some(h) => h.t >= rec.t,
                        None => true,
                    }
                &&& rec_wf(rec)
                &&& t_min <= rec.t <= t_max
            },
            res is None ==> forall|j: int|
                0 <= j < self.objects@.len() ==> sph_hit(
                    #[trigger] self.objects@[j],
                    r@,
                    t_min as int,
                    t_max as int,
                ) is None,
    {
        proof {
            lemma_scan_closest(self.objects@, r@, t_min as int, t_max as int);
        }
        let ghost objs = self.objects@;
        let mut res: Option<HitRecord> = None;
        let mut closest_so_far: i128 = t_max;
        let mut i: usize = 0;
        while i < self.objects.len()
            invariant
                list_wf(*self),
                objs == self.objects@,
                v3_in(r@.origin, 0x10_0000_0000),
                v3_in(r@.dir, 0x10_0000_0000),
                0 <= t_min,
                0 <= t_max <= 0x4_0000_0000,
                0 <= i <= objs.len(),
                (res is Some) == (scan_hit(objs.take(i as int), r@, t_min as int, t_max as int)
                    is Some),
                res matches Some(rec) ==> {
                    &&& scan_hit(objs.take(i as int), r@, t_min as int, t_max as int)
                        matches Some(ih) && rec@ == ih.1 && 0 <= ih.0 < i && rec.material
                        == objs[ih.0].material
                    &&& rec_wf(rec)
                    &&& t_min <= rec.t <= t_max
                    &&& closest_so_far == rec.t
                },
                res is None ==> closest_so_far == t_max,
            decreases objs.len() - i,
        {
            let ghost prefix = objs.take(i as int);
            let object = &self.objects[i];
            if let Some(new_hit) = object.hit(r, t_min, closest_so_far) {
                closest_so_far = new_hit.t;
                res = Some(new_hit);
            }
            proof {
                assert(objs.take(i + 1).drop_last() =~= prefix);
                assert(objs.take(i + 1).last() == objs[i as int]);
            }
            i = i + 1;
        }
        proof {
            assert(objs.take(objs.len() as int) =~= objs);
        }
        res
    }
}

} // verus!
