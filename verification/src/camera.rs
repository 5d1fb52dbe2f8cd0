//! The virtual camera: maps normalized image-plane coordinates to rays.

use vstd::prelude::*;
use crate::fixed::{SCALE, fmul, lemma_fmul_bound};
use crate::vec3::{
    Vec3, Point, V3, v3_in, v3_zero, s_add, s_sub, s_scale, s_divs, lemma_scale_bound,
};
use crate::ray::{Ray, RayV};

verus! {

/// The mathematical value of a camera.
pub ghost struct CamV {
    pub origin: V3,
    pub upper_left_corner: V3,
    pub horizontal: V3,
    pub vertical: V3,
}

/// A camera at a movable origin with a fixed viewing basis: rays leave
/// the origin through a viewport one focal length away.
pub struct Camera {
    origin: Point,
    upper_left_corner: Point,
    horizontal: Vec3,
    vertical: Vec3,
}

impl View for Camera {
    type V = CamV;

    closed spec fn view(&self) -> CamV {
        CamV {
            origin: self.origin@,
            upper_left_corner: self.upper_left_corner@,
            horizontal: self.horizontal@,
            vertical: self.vertical@,
        }
    }
}

/// Every camera field stays within the world coordinate range.
pub open spec fn cam_wf(c: Camera) -> bool {
    &&& v3_in(c@.origin, 0x1_0000_0000)
    &&& v3_in(c@.upper_left_corner, 0x1_0000_0000)
    &&& v3_in(c@.horizontal, 0x1_0000_0000)
    &&& v3_in(c@.vertical, 0x1_0000_0000)
}

impl Camera {
    /// A camera at the world origin. `half_viewport_height` is the
    /// tangent of half the vertical field of view; the viewport is two
    /// of those tall, `aspect_ratio` times as wide, and one focal
    /// length along the negative z axis.
    pub fn new(half_viewport_height: i128, aspect_ratio: i128) -> (r: Camera)
        requires
            0 <= half_viewport_height <= 0x80_0000,
            0 <= aspect_ratio <= 0x40_0000,
        ensures
            r@.origin == v3_zero(),
            r@.horizontal == (V3 {
                x: fmul(aspect_ratio as int, 2 * half_viewport_height),
                y: 0,
                z: 0,
            }),
            r@.vertical == (V3 { x: 0, y: 2 * half_viewport_height, z: 0 }),
            r@.upper_left_corner == s_sub(
                s_add(
                    s_sub(v3_zero(), s_divs(r@.horizontal, 2 * (SCALE as int))),
                    s_divs(r@.vertical, 2 * (SCALE as int)),
                ),
                V3 { x: 0, y: 0, z: SCALE as int },
            ),
            cam_wf(r),
    {
        let viewport_height: i128 = 2 * half_viewport_height;
        proof {
            lemma_fmul_bound(aspect_ratio as int, viewport_height as int, 0x40_0000, 0x100_0000);
            assert((0x40_0000int * 0x100_0000int) / 65536int == 0x4000_0000int);
        }
        let viewport_width: i128 = crate::fixed::mul_fx(aspect_ratio, viewport_height);

        let origin = Point::zeros();
        let horizontal = Vec3::new(viewport_width, 0, 0);
        let vertical = Vec3::new(0, viewport_height, 0);
        let half_h = horizontal.div(2 * SCALE);
        let half_v = vertical.div(2 * SCALE);
        proof {
            assert((0x4000_0000int * 65536int) / 131072int == 536870912int);
            crate::fixed::lemma_fdiv_bound(
                viewport_width as int,
                2 * (SCALE as int),
                0x4000_0000,
                131072,
            );
            assert((0x100_0000int * 65536int) / 131072int == 8388608int);
            crate::fixed::lemma_fdiv_bound(
                viewport_height as int,
                2 * (SCALE as int),
                0x100_0000,
                131072,
            );
        }
        let focal = Vec3::new(0, 0, SCALE);
        let upper_left_corner = origin.sub(&half_h).add(&half_v).sub(&focal);
        Camera { origin, horizontal, vertical, upper_left_corner }
    }

    /// The ray from the origin through the image-plane point `(x, y)`,
    /// both normalized to `[0, 1]`, `x` running left to right and `y`
    /// top to bottom.
    pub fn get_ray(&self, x: i128, y: i128) -> (r: Ray)
        requires
            cam_wf(*self),
            0 <= x <= SCALE as int,
            0 <= y <= SCALE as int,
        ensures
            r@.origin == self@.origin,
            r@.dir == s_sub(
                s_add(self@.upper_left_corner, s_scale(self@.horizontal, x as int)),
                s_scale(self@.vertical, y as int),
            ),
            v3_in(r@.origin, 0x1_0000_0000),
            v3_in(r@.dir, 0x10_0000_0000),
    {
        proof {
            assert((0x1_0000_0000int * 65536int) / 65536int == 0x1_0000_0000int);
            lemma_scale_bound(self@.horizontal, x as int, 0x1_0000_0000, 65536);
            lemma_scale_bound(self@.vertical, y as int, 0x1_0000_0000, 65536);
        }
        let hx = self.horizontal.scale(x);
        let vy = self.vertical.scale(y);
        let dir = self.upper_left_corner.add(&hx).sub(&vy);
        Ray::new(self.origin, dir)
    }

    /// Translates the camera origin; the viewing basis stays fixed.
    pub fn shift(&mut self, movement: &Vec3)
        requires
            cam_wf(*old(self)),
            v3_in(movement@, 0x1_0000_0000),
            v3_in(s_add(old(self)@.origin, movement@), 0x1_0000_0000),
        ensures
            final(self)@.origin == s_add(old(self)@.origin, movement@),
            final(self)@.upper_left_corner == old(self)@.upper_left_corner,
            final(self)@.horizontal == old(self)@.horizontal,
            final(self)@.vertical == old(self)@.vertical,
            cam_wf(*final(self)),
    {
        self.origin.add_assign(*movement);
    }
}

} // verus!
