//! Rays: a half-line from an origin along a direction.

use vstd::prelude::*;
use crate::fixed::iabs;
use crate::vec3::{Vec3, Point, V3, v3_in, s_add, s_scale, lemma_scale_bound, VB};

verus! {

/// The mathematical value of a ray.
pub ghost struct RayV {
    pub origin: V3,
    pub dir: V3,
}

#[derive(Clone, Copy, Debug)]
pub struct Ray {
    pub origin: Point,
    pub dir: Vec3,
}

impl View for Ray {
    type V = RayV;

    open spec fn view(&self) -> RayV {
        RayV { origin: self.origin@, dir: self.dir@ }
    }
}

/// The point a parameter `t` along a ray.
pub open spec fn s_at(r: RayV, t: int) -> V3 {
    s_add(r.origin, s_scale(r.dir, t))
}

/// Componentwise bounds on a ray's origin and direction.
pub open spec fn ray_in(r: RayV, ob: int, db: int) -> bool {
    v3_in(r.origin, ob) && v3_in(r.dir, db)
}

impl Ray {
    pub fn new(origin: Point, dir: Vec3) -> (r: Ray)
        ensures
            r@ == (RayV { origin: origin@, dir: dir@ }),
    {
        Ray { origin, dir }
    }

    /// The point at parameter `t`; any finite `t` is legal, negative
    /// ones included.
    pub fn at(&self, t: i128) -> (r: Point)
        requires
            v3_in(self@.origin, 0x10_0000_0000),
            v3_in(self@.dir, 0x10_0000_0000),
            iabs(t as int) <= 0x4_0000_0000,
        ensures
            r@ == s_at(self@, t as int),
            v3_in(r@, 18014467228958720),
    {
        proof {
            assert((0x10_0000_0000int * 0x4_0000_0000int) / 65536int == 0x40_0000_0000_0000int);
            lemma_scale_bound(self@.dir, t as int, 0x10_0000_0000, 0x4_0000_0000);
        }
        let d = self.dir.scale(t);
        self.origin.add(&d)
    }
}

} // verus!
