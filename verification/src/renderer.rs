//! The renderer: per-pixel sampling, recursive color accumulation,
//! parallel tiling, and quantization to 8-bit RGBA.

use vstd::prelude::*;
use rayon::iter::{IndexedParallelIterator, ParallelIterator};
use rayon::slice::ParallelSliceMut;
use crate::fixed::{
    SCALE, iabs, tdiv, fdiv, fsqrt, spec_clamp, lemma_div_bounds, lemma_div_mono_num,
    lemma_fdiv_bound, lemma_fmul_bound, lemma_tdiv_mag, div_fx, div_trunc, sqrt_fx, clamp_fx,
};
use crate::vec3::{
    Vec3, Color, V3, v3_in, v3_zero, s_add, s_sub, s_scale, s_ls, s_unit, lemma_scale_bound,
};
use crate::ray::{Ray, RayV};
use crate::camera::{Camera, CamV, cam_wf};
use crate::hittable::{HittableList, list_wf, scan_hit, lemma_scan_zero_dir};
use crate::sampling::rand_raw_in;

verus! {

/// Hits closer than this along the ray are ignored, so a scattered ray
/// cannot immediately re-hit its own surface (0.001, rounded down).
pub const T_MIN: i128 = 65;

/// Stands in for an unbounded far limit: farther than any point of the
/// world can lie from any ray origin the renderer accepts.
pub const T_FAR: i128 = 0x4_0000_0000;

/// The per-frame rendering configuration.
pub struct Renderer {
    pub width: u32,
    pub height: u32,
    pub t_min: i128,
    pub max_ray_depth: usize,
    pub samples_per_pixel: usize,
    /// When false, every sample is taken at the horizontal center of
    /// its pixel instead of at a random horizontal offset.
    pub jitter: bool,
}

pub open spec fn ren_wf(r: Renderer) -> bool {
    &&& 1 <= r.width <= 16384
    &&& 1 <= r.height <= 16384
    &&& 0 <= r.t_min <= T_FAR as int
    &&& 1 <= r.samples_per_pixel <= 65536
}

/// The configuration under which a frame is a pure function of scene
/// and camera: one sample per pixel, taken at the pixel center, and a
/// ray budget too small for any randomly scattered ray to matter.
pub open spec fn det_cfg(r: Renderer) -> bool {
    r.samples_per_pixel == 1 && !r.jitter && r.max_ray_depth <= 1
}

/// The sky gradient a missed ray returns: white at the bottom of the
/// view blending toward light blue at the top.
pub open spec fn s_sky(r: RayV) -> V3 {
    let u = if s_ls(r.dir) == 0 {
        v3_zero()
    } else {
        s_unit(r.dir)
    };
    let t = fdiv(u.y + SCALE as int, 2 * (SCALE as int));
    s_add(
        s_scale(V3 { x: SCALE as int, y: SCALE as int, z: SCALE as int }, SCALE as int - t),
        s_scale(V3 { x: 32768, y: 45875, z: 65536 }, t),
    )
}

/// What a traced ray returns when the budget admits no scattering:
/// black when the budget is spent or anything is hit, else the sky.
pub open spec fn s_rc_low(r: Renderer, w: HittableList, ray: RayV, depth: int) -> V3 {
    if depth <= 0 {
        v3_zero()
    } else if scan_hit(w.objects@, ray, r.t_min as int, T_FAR as int) is Some {
        v3_zero()
    } else {
        s_sky(ray)
    }
}

/// A summed sample color turned into one output channel: averaged,
/// gamma-corrected by square root, clamped below one, and scaled to
/// eight bits.
pub open spec fn s_quant(c: int, spp: int) -> int {
    let avg = tdiv(c, spp);
    let g = fsqrt(
        if avg >= 0 {
            avg
        } else {
            0
        },
    );
    tdiv(spec_clamp(g, 0, 65470), 256)
}

/// The centered camera ray for pixel `i`.
pub open spec fn s_pixel_ray(r: Renderer, cam: CamV, i: int) -> RayV {
    let w = r.width as int;
    let h = r.height as int;
    let x = tdiv((i % w) * 65536 + 32768, w);
    let y = tdiv((i / w) * 65536, h);
    RayV {
        origin: cam.origin,
        dir: s_sub(
            s_add(cam.upper_left_corner, s_scale(cam.horizontal, x)),
            s_scale(cam.vertical, y),
        ),
    }
}

/// The bytes of pixel `i` under the deterministic configuration.
#[verifier::opaque]
pub open spec fn s_pixel(r: Renderer, w: HittableList, cam: CamV, i: int) -> (u8, u8, u8) {
    let c = s_rc_low(r, w, s_pixel_ray(r, cam, i), r.max_ray_depth as int);
    let spp = r.samples_per_pixel as int;
    ((s_quant(c.x, spp)) as u8, (s_quant(c.y, spp)) as u8, (s_quant(c.z, spp)) as u8)
}

/// Byte `k` of the frame under the deterministic configuration:
/// four bytes per pixel, row-major, alpha always opaque.
#[verifier::opaque]
pub open spec fn s_frame_byte(r: Renderer, w: HittableList, cam: CamV, k: int) -> u8 {
    let i = k / 4;
    let ch = k % 4;
    if ch == 0 {
        s_pixel(r, w, cam, i).0
    } else if ch == 1 {
        s_pixel(r, w, cam, i).1
    } else if ch == 2 {
        s_pixel(r, w, cam, i).2
    } else {
        255u8
    }
}

/// The whole frame under the deterministic configuration.
pub open spec fn s_frame_seq(r: Renderer, w: HittableList, cam: CamV) -> Seq<u8> {
    Seq::new((r.width as nat) * (r.height as nat) * 4, |k: int| s_frame_byte(r, w, cam, k))
}

/// With one centered sample per pixel and no scattering budget, the
/// frame a draw writes is a function of scene and camera alone: any
/// two draws of the same scene yield byte-identical buffers.
pub proof fn lemma_draw_deterministic(
    r: Renderer,
    w: HittableList,
    cam: CamV,
    f1: Seq<u8>,
    f2: Seq<u8>,
)
    requires
        det_cfg(r),
        f1 == s_frame_seq(r, w, cam),
        f2 == s_frame_seq(r, w, cam),
    ensures
        f1 == f2,
{
}

/// True when every coordinate is within the world range a traced ray
/// may start from.
fn in_world(v: &Vec3) -> (b: bool)
    ensures
        b == v3_in(v@, 0x4_0000_0000),
{
    -0x4_0000_0000 <= v.x && v.x <= 0x4_0000_0000 && -0x4_0000_0000 <= v.y && v.y
        <= 0x4_0000_0000 && -0x4_0000_0000 <= v.z && v.z <= 0x4_0000_0000
}

/// The sky gradient for a missed ray.
fn sky(ray: &Ray) -> (c: Color)
    requires
        v3_in(ray@.dir, 0x10_0000_0000),
    ensures
        c@ == s_sky(ray@),
        v3_in(c@, 262144),
{
    let ls = ray.dir.length_squared();
    let u = if ls == 0 {
        Vec3::zeros()
    } else {
        ray.dir.unit_vec()
    };
    proof {
        assert((196608int * 65536int) / 131072int == 98304int);
        lemma_fdiv_bound(u@.y + SCALE as int, 2 * (SCALE as int), 196608, 131072);
    }
    let t = div_fx(u.y + SCALE, 2 * SCALE);
    let white = Vec3::new(SCALE, SCALE, SCALE);
    let blue = Vec3::new(32768, 45875, 65536);
    proof {
        assert((65536int * 163840int) / 65536int == 163840int);
        lemma_scale_bound(white@, SCALE as int - t as int, 65536, 163840);
        assert((65536int * 98304int) / 65536int == 98304int);
        lemma_scale_bound(blue@, t as int, 65536, 98304);
    }
    let a = white.scale(SCALE - t);
    let b = blue.scale(t);
    a.add(&b)
}

impl Renderer {
    pub fn new(width: u32, height: u32, max_ray_depth: usize, samples_per_pixel: usize) -> (r:
        Renderer)
        requires
            1 <= width <= 16384,
            1 <= height <= 16384,
            1 <= samples_per_pixel <= 65536,
        ensures
            r.width == width,
            r.height == height,
            r.max_ray_depth == max_ray_depth,
            r.samples_per_pixel == samples_per_pixel,
            r.t_min == T_MIN,
            r.jitter == true,
            ren_wf(r),
    {
        let t_min = T_MIN;
        Renderer { width, height, t_min, max_ray_depth, samples_per_pixel, jitter: true }
    }

    /// Switches the per-sample horizontal jitter on or off; off fixes
    /// every sample to its pixel's center.
    pub fn set_jitter(&mut self, on: bool)
        ensures
            final(self).jitter == on,
            final(self).width == old(self).width,
            final(self).height == old(self).height,
            final(self).t_min == old(self).t_min,
            final(self).max_ray_depth == old(self).max_ray_depth,
            final(self).samples_per_pixel == old(self).samples_per_pixel,
    {
        self.jitter = on;
    }

    /// The color a ray contributes: black once the bounce budget is
    /// spent; on a hit, the material's attenuation times the color of
    /// the scattered ray, or black when the ray is absorbed; on a
    /// miss, the sky gradient. A hit beyond the world's coordinate
    /// range counts as absorbed.
    pub fn ray_color(&self, world: &HittableList, ray: &Ray, depth: usize) -> (c: Color)
        requires
            ren_wf(*self),
            list_wf(*world),
            v3_in(ray@.origin, 0x4_0000_0000),
            v3_in(ray@.dir, 0x10_0000_0000),
        ensures
            v3_in(c@, 262144),
            depth == 0 ==> c@ == v3_zero(),
            depth >= 1 && scan_hit(world.objects@, ray@, self.t_min as int, T_FAR as int)
                is None ==> c@ == s_sky(ray@),
            depth <= 1 ==> c@ == s_rc_low(*self, *world, ray@, depth as int),
        decreases depth,
    {
        if depth == 0 {
            return Vec3::zeros();
        }
        let dls = ray.dir.length_squared();
        if dls == 0 {
            proof {
                lemma_scan_zero_dir(world.objects@, ray@, self.t_min as int, T_FAR as int);
            }
            return sky(ray);
        }
        match world.hit(ray, self.t_min, T_FAR) {
            Some(hit_record) => {
                if in_world(&hit_record.p) {
                    match hit_record.material.scatter(ray, &hit_record) {
                        Some((scattered, attenuation)) => {
                            let rest = self.ray_color(world, &scattered, depth - 1);
                            proof {
                                assert((65536int * 262144int) / 65536int == 262144int);
                                lemma_fmul_bound(attenuation@.x, rest@.x, 65536, 262144);
                                lemma_fmul_bound(attenuation@.y, rest@.y, 65536, 262144);
                                lemma_fmul_bound(attenuation@.z, rest@.z, 65536, 262144);
                            }
                            attenuation.mul(&rest)
                        },
                        None => Vec3::zeros(),
                    }
                } else {
                    Vec3::zeros()
                }
            },
            None => sky(ray),
        }
    }

    /// One summed sample channel turned into an output byte.
    fn quant_channel(c: i128, spp: usize) -> (b: u8)
        requires
            1 <= spp <= 65536,
            iabs(c as int) <= 0x8_0000_0000,
        ensures
            b as int == s_quant(c as int, spp as int),
    {
        proof {
            lemma_tdiv_mag(c as int, spp as int);
        }
        let avg = div_trunc(c, spp as i128);
        let nn = if avg >= 0 {
            avg
        } else {
            0
        };
        let g = sqrt_fx(nn);
        let cl = clamp_fx(g, 0, 65470);
        proof {
            lemma_div_bounds(cl as int, 256);
            lemma_div_mono_num(cl as int, 65470, 256);
        }
        let q = div_trunc(cl, 256);
        q as u8
    }

    /// The RGB bytes of pixel `i`, averaging `samples_per_pixel`
    /// jittered camera rays.
    pub fn render_pixel(&self, world: &HittableList, camera: &Camera, i: usize) -> (rgb: (
        u8,
        u8,
        u8,
    ))
        requires
            ren_wf(*self),
            list_wf(*world),
            cam_wf(*camera),
            i < self.width * self.height,
        ensures
            det_cfg(*self) ==> rgb == s_pixel(*self, *world, camera@, i as int),
    {
        let w = self.width as usize;
        let h = self.height as usize;
        let col = i % w;
        let row = i / w;
        proof {
            assert(row < h) by (nonlinear_arith)
                requires
                    i < w * h,
                    1 <= w,
                    row == i as int / w as int,
            ;
        }
        let mut color = Vec3::zeros();
        let mut s: usize = 0;
        while s < self.samples_per_pixel
            invariant
                ren_wf(*self),
                list_wf(*world),
                cam_wf(*camera),
                i < self.width * self.height,
                w == self.width,
                h == self.height,
                col == i as int % w as int,
                row == i as int / w as int,
                row < h,
                s <= self.samples_per_pixel,
                v3_in(color@, 262144 * (s as int)),
                det_cfg(*self) && s >= 1 ==> color@ == s_rc_low(
                    *self,
                    *world,
                    s_pixel_ray(*self, camera@, i as int),
                    self.max_ray_depth as int,
                ),
            decreases self.samples_per_pixel - s,
        {
            let off: i128 = if self.jitter {
                rand_raw_in(0, SCALE)
            } else {
                32768
            };
            let xnum: i128 = (col as i128) * SCALE + off;
            let ynum: i128 = (row as i128) * SCALE;
            let x = div_trunc(xnum, w as i128);
            let y = div_trunc(ynum, h as i128);
            proof {
                lemma_div_bounds(xnum as int, w as int);
                lemma_div_mono_num(xnum as int, w as int * 65536 - 1, w as int);
                assert((w as int * 65536 - 1) / (w as int) <= 65535) by (nonlinear_arith)
                    requires
                        1 <= w as int <= 16384,
                ;
                lemma_div_bounds(ynum as int, h as int);
                lemma_div_mono_num(ynum as int, (h as int - 1) * 65536, h as int);
                assert(((h as int - 1) * 65536) / (h as int) <= 65535) by (nonlinear_arith)
                    requires
                        1 <= h as int <= 16384,
                ;
            }
            let ray = camera.get_ray(x, y);
            let rc = self.ray_color(world, &ray, self.max_ray_depth);
            color.add_assign(rc);
            s = s + 1;
        }
        let spp = self.samples_per_pixel;
        proof {
            assert(262144 * (s as int) <= 0x8_0000_0000);
            reveal(s_pixel);
        }
        (
            Self::quant_channel(color.x, spp),
            Self::quant_channel(color.y, spp),
            Self::quant_channel(color.z, spp),
        )
    }

    /// The bytes of one tile: `chunk_bytes / 4` pixels starting at
    /// pixel `tile_index * tile_px`, each as opaque RGBA.
    #[verifier::rlimit(60)]
    pub fn draw_pixels(
        &self,
        world: &HittableList,
        camera: &Camera,
        tile_index: usize,
        tile_px: usize,
        chunk_bytes: usize,
    ) -> (out: Vec<u8>)
        requires
            ren_wf(*self),
            list_wf(*world),
            cam_wf(*camera),
            chunk_bytes % 4 == 0,
            tile_index * tile_px + chunk_bytes / 4 <= self.width * self.height,
        ensures
            out@.len() == chunk_bytes,
            forall|j: int| 0 <= j && 4 * j + 3 < chunk_bytes ==> #[trigger] out@[4 * j + 3]
                == 255u8,
            det_cfg(*self) ==> forall|k: int|
                0 <= k < chunk_bytes ==> out@[k] == s_frame_byte(
                    *self,
                    *world,
                    camera@,
                    (tile_index * tile_px * 4) as int + k,
                ),
    {
        proof {
            assert(tile_index * tile_px <= 0x1000_0000 && self.width * self.height <= 0x1000_0000)
                by (nonlinear_arith)
                requires
                    tile_index * tile_px + chunk_bytes / 4 <= self.width * self.height,
                    1 <= self.width <= 16384,
                    1 <= self.height <= 16384,
                    0 <= chunk_bytes / 4,
            ;
        }
        let start = tile_index * tile_px;
        let count = chunk_bytes / 4;
        let mut out: Vec<u8> = Vec::new();
        let mut p: usize = 0;
        while p < count
            invariant
                ren_wf(*self),
                list_wf(*world),
                cam_wf(*camera),
                start == tile_index * tile_px,
                count == chunk_bytes / 4,
                chunk_bytes % 4 == 0,
                start + count <= self.width * self.height,
                start + count <= 0x1000_0000,
                p <= count,
                out@.len() == 4 * p,
                forall|j: int| 0 <= j < p ==> #[trigger] out@[4 * j + 3] == 255u8,
                det_cfg(*self) ==> forall|j: int|
                    0 <= j < p ==> {
                        let px = #[trigger] s_pixel(*self, *world, camera@, start + j);
                        &&& out@[4 * j] == px.0
                        &&& out@[4 * j + 1] == px.1
                        &&& out@[4 * j + 2] == px.2
                        &&& out@[4 * j + 3] == 255u8
                    },
            decreases count - p,
        {
            let (r, g, b) = self.render_pixel(world, camera, start + p);
            out.push(r);
            out.push(g);
            out.push(b);
            out.push(255);
            p = p + 1;
        }
        proof {
            if det_cfg(*self) {
                reveal(s_frame_byte);
                assert forall|k: int| 0 <= k < chunk_bytes implies out@[k] == s_frame_byte(
                    *self,
                    *world,
                    camera@,
                    (start * 4) as int + k,
                ) by {
                    let j = k / 4;
                    let ch = k % 4;
                    assert(((start * 4) as int + k) / 4 == start + j);
                    assert(((start * 4) as int + k) % 4 == ch);
                    assert(k == 4 * j + ch);
                    let px = s_pixel(*self, *world, camera@, start + j);
                    assert(0 <= j < p);
                    assert(out@[4 * j] == px.0 && out@[4 * j + 1] == px.1 && out@[4 * j + 2]
                        == px.2 && out@[4 * j + 3] == 255u8);
                }
            }
        }
        out
    }

    /// Renders the scene into the RGBA frame buffer, one tile per
    /// parallel task; every pixel of the frame is written.
    pub fn draw(&self, world: &HittableList, camera: &Camera, frame: &mut Vec<u8>)
        requires
            ren_wf(*self),
            list_wf(*world),
            cam_wf(*camera),
            old(frame).len() == self.width * self.height * 4,
        ensures
            final(frame)@.len() == old(frame)@.len(),
            det_cfg(*self) ==> final(frame)@ == s_frame_seq(*self, *world, camera@),
    {
        let npix = (self.width as usize) * (self.height as usize);
        let sixteenth = npix / 16;
        let tile_px = if sixteenth >= 1 {
            sixteenth
        } else {
            1
        };
        let chunk_bytes = tile_px * 4;
        par_render(self, world, camera, frame, tile_px, chunk_bytes);
    }
}

/// Relies on rayon's `par_chunks_mut`: it yields the frame's disjoint
/// consecutive chunks of `chunk_bytes` bytes each (only the last may
/// be shorter), each exactly once together with its index, and runs
/// the closure on every chunk; the closure only calls `draw_pixels`
/// and copies its bytes into the chunk, so chunk `t` holds the
/// rendering of the pixels from `t * tile_px` on.
#[verifier::external_body]
fn par_render(
    ren: &Renderer,
    world: &HittableList,
    camera: &Camera,
    frame: &mut Vec<u8>,
    tile_px: usize,
    chunk_bytes: usize,
)
    requires
        ren_wf(*ren),
        list_wf(*world),
        cam_wf(*camera),
        tile_px >= 1,
        chunk_bytes == tile_px * 4,
        old(frame).len() == ren.width * ren.height * 4,
    ensures
        final(frame)@.len() == old(frame)@.len(),
        det_cfg(*ren) ==> final(frame)@ == s_frame_seq(*ren, *world, camera@),
{
    frame.as_mut_slice().par_chunks_mut(chunk_bytes).enumerate().for_each(
        |(t, chunk): (usize, &mut [u8])|
            {
                let bytes = ren.draw_pixels(world, camera, t, tile_px, chunk.len());
                chunk.copy_from_slice(&bytes);
            },
    );
}

} // verus!
