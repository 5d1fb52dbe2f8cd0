//! Three-component fixed-point vectors, used as points, directions and
//! colors alike.

use vstd::prelude::*;
use crate::fixed::{
    SCALE, iabs, tdiv, fmul, fdiv, fsqrt, int_sqrt, spec_clamp,
    lemma_int_sqrt, lemma_int_sqrt_unique, lemma_div_bounds, lemma_div_exact, lemma_tdiv_neg,
    lemma_tdiv_mag_le, lemma_fmul_bound, lemma_fmul_unit, lemma_comp_le_unit,
    mul_fx, div_fx, sqrt_fx, clamp_fx,
};
use crate::sampling::rand_raw_in;

verus! {

/// The mathematical value of a vector: three unbounded integers, each a
/// raw fixed-point scalar.
pub ghost struct V3 {
    pub x: int,
    pub y: int,
    pub z: int,
}

/// A vector of three fixed-point scalars.
#[derive(Clone, Copy, Debug, PartialEq, Eq, Structural)]
pub struct Vec3 {
    pub x: i128,
    pub y: i128,
    pub z: i128,
}

/// A location in space.
pub type Point = Vec3;

/// A color; each component is the fraction of that channel, 1 meaning full.
pub type Color = Vec3;

impl View for Vec3 {
    type V = V3;

    open spec fn view(&self) -> V3 {
        V3 { x: self.x as int, y: self.y as int, z: self.z as int }
    }
}

/// Componentwise bound on a vector's magnitude.
pub open spec fn v3_in(a: V3, b: int) -> bool {
    iabs(a.x) <= b && iabs(a.y) <= b && iabs(a.z) <= b
}

/// The zero vector.
pub open spec fn v3_zero() -> V3 {
    V3 { x: 0, y: 0, z: 0 }
}

pub open spec fn s_add(a: V3, b: V3) -> V3 {
    V3 { x: a.x + b.x, y: a.y + b.y, z: a.z + b.z }
}

pub open spec fn s_sub(a: V3, b: V3) -> V3 {
    V3 { x: a.x - b.x, y: a.y - b.y, z: a.z - b.z }
}

pub open spec fn s_neg(a: V3) -> V3 {
    V3 { x: -a.x, y: -a.y, z: -a.z }
}

/// Componentwise product of a vector and a scalar.
pub open spec fn s_scale(a: V3, k: int) -> V3 {
    V3 { x: fmul(a.x, k), y: fmul(a.y, k), z: fmul(a.z, k) }
}

/// Componentwise product of two vectors.
pub open spec fn s_mulv(a: V3, b: V3) -> V3 {
    V3 { x: fmul(a.x, b.x), y: fmul(a.y, b.y), z: fmul(a.z, b.z) }
}

/// Componentwise quotient of a vector by a scalar.
pub open spec fn s_divs(a: V3, k: int) -> V3 {
    V3 { x: fdiv(a.x, k), y: fdiv(a.y, k), z: fdiv(a.z, k) }
}

pub open spec fn s_dot(a: V3, b: V3) -> int {
    fmul(a.x, b.x) + fmul(a.y, b.y) + fmul(a.z, b.z)
}

pub open spec fn s_cross(a: V3, b: V3) -> V3 {
    V3 {
        x: fmul(a.y, b.z) - fmul(a.z, b.y),
        y: fmul(a.z, b.x) - fmul(a.x, b.z),
        z: fmul(a.x, b.y) - fmul(a.y, b.x),
    }
}

/// Squared Euclidean length.
pub open spec fn s_ls(a: V3) -> int {
    s_dot(a, a)
}

/// Euclidean length.
pub open spec fn s_len(a: V3) -> int {
    fsqrt(s_ls(a))
}

/// The vector scaled to unit length.
pub open spec fn s_unit(a: V3) -> V3 {
    s_divs(a, s_len(a))
}

pub open spec fn s_clamped(a: V3, lo: int, hi: int) -> V3 {
    V3 {
        x: spec_clamp(a.x, lo, hi),
        y: spec_clamp(a.y, lo, hi),
        z: spec_clamp(a.z, lo, hi),
    }
}

/// Mirror reflection of `v` about the normal `n`.
pub open spec fn s_reflect(v: V3, n: V3) -> V3 {
    s_sub(v, s_scale(n, 2 * s_dot(v, n)))
}

/// Snell refraction of the unit direction `uv` at a surface with unit
/// normal `n` and ratio of refractive indices `ratio`.
pub open spec fn s_refract(uv: V3, n: V3, ratio: int) -> V3 {
    let cos_theta = if s_dot(s_neg(uv), n) <= SCALE as int {
        s_dot(s_neg(uv), n)
    } else {
        SCALE as int
    };
    let r_out_perp = s_scale(s_add(uv, s_scale(n, cos_theta)), ratio);
    let r_out_parallel = s_scale(n, -fsqrt(iabs(SCALE as int - s_ls(r_out_perp))));
    s_add(r_out_perp, r_out_parallel)
}

/// Componentwise bound under which all vector operations stay within
/// `i128`.
pub const VB: i128 = 0x80_0000_0000_0000;

/// A fixed-point square is never negative.
pub proof fn lemma_square_nonneg(a: int)
    ensures
        fmul(a, a) >= 0,
        a * a >= 0,
{
    assert(a * a >= 0) by (nonlinear_arith);
    if a * a > 0 {
        lemma_div_bounds(a * a, SCALE as int);
    }
}

/// A squared length is never negative, and no squared component
/// outweighs it.
pub proof fn lemma_ls_parts(a: V3)
    ensures
        s_ls(a) >= 0,
        fmul(a.x, a.x) <= s_ls(a),
        fmul(a.y, a.y) <= s_ls(a),
        fmul(a.z, a.z) <= s_ls(a),
{
    lemma_square_nonneg(a.x);
    lemma_square_nonneg(a.y);
    lemma_square_nonneg(a.z);
}

/// A bound on a dot product from bounds on its operands.
pub proof fn lemma_dot_bound(a: V3, b: V3, ba: int, bb: int)
    requires
        v3_in(a, ba),
        v3_in(b, bb),
        0 <= ba,
        0 <= bb,
    ensures
        iabs(s_dot(a, b)) <= 3 * ((ba * bb) / (SCALE as int)),
{
    lemma_fmul_bound(a.x, b.x, ba, bb);
    lemma_fmul_bound(a.y, b.y, ba, bb);
    lemma_fmul_bound(a.z, b.z, ba, bb);
}

/// The normalized form of a vector of length at least one step has
/// components of at most two units, and the length itself is at least
/// 1/256.
pub proof fn lemma_unit_bound(a: V3)
    requires
        v3_in(a, VB as int),
        s_ls(a) >= 1,
    ensures
        v3_in(s_unit(a), 2 * (SCALE as int)),
        s_len(a) >= 256,
        s_len(a) > 0,
{
    let ls = s_ls(a);
    let s = SCALE as int;
    lemma_int_sqrt(ls * s);
    let len = int_sqrt(ls * s);
    assert(len >= 256) by (nonlinear_arith)
        requires
            ls >= 1,
            s == 65536,
            0 <= len,
            ls * s < (len + 1) * (len + 1),
    ;
    lemma_ls_parts(a);
    lemma_unit_bound_comp(a.x, ls, len);
    lemma_unit_bound_comp(a.y, ls, len);
    lemma_unit_bound_comp(a.z, ls, len);
}

/// One component of the normalization bound: if `c`'s fixed-point
/// square is within `ls` and `len` is the square root of `ls`, then
/// `c / len` is at most two units.
proof fn lemma_unit_bound_comp(c: int, ls: int, len: int)
    requires
        ls >= 1,
        fmul(c, c) <= ls,
        len >= 256,
        len * len <= ls * (SCALE as int),
        ls * (SCALE as int) < (len + 1) * (len + 1),
    ensures
        iabs(fdiv(c, len)) <= 2 * (SCALE as int),
{
    let s = SCALE as int;
    lemma_square_nonneg(c);
    assert(tdiv(c * c, s) == (c * c) / s);
    assert(c * c < (ls + 1) * s) by (nonlinear_arith)
        requires
            s == 65536,
            (c * c) / s <= ls,
            c * c >= 0,
    ;
    assert(-(2 * len) <= c <= 2 * len) by (nonlinear_arith)
        requires
            c * c < (ls + 1) * s,
            ls * s < (len + 1) * (len + 1),
            len >= 256,
            s == 65536,
            ls >= 1,
    ;
    assert(iabs(c * s) <= (2 * len) * s);
    lemma_tdiv_mag_le(c * s, 2 * len * s, len);
    assert((2 * len * s) / len == 2 * s) by (nonlinear_arith)
        requires
            len >= 1,
            s == 65536,
    ;
}

/// Scaling a normalized vector back by the length it was divided by
/// recovers the vector, within one part in 65536 of the length plus
/// two steps per component.
pub proof fn lemma_unit_times_length(a: V3)
    requires
        v3_in(a, VB as int),
        s_ls(a) >= 1,
    ensures
        iabs(fmul(s_unit(a).x, s_len(a)) - a.x) <= s_len(a) / 65536 + 2,
        iabs(fmul(s_unit(a).y, s_len(a)) - a.y) <= s_len(a) / 65536 + 2,
        iabs(fmul(s_unit(a).z, s_len(a)) - a.z) <= s_len(a) / 65536 + 2,
{
    lemma_unit_bound(a);
    lemma_unit_back_comp(a.x, s_len(a));
    lemma_unit_back_comp(a.y, s_len(a));
    lemma_unit_back_comp(a.z, s_len(a));
}

/// A normalized vector has length one, within sixteen fixed-point
/// steps, whenever the vector is at least one unit long. Shorter
/// vectors lose too much of their squared length to rounding for any
/// such bound and are outside this statement.
pub proof fn lemma_unit_length(a: V3)
    requires
        v3_in(a, VB as int),
        s_ls(a) >= SCALE as int,
    ensures
        iabs(s_len(s_unit(a)) - SCALE as int) <= 16,
{
    let ls = s_ls(a);
    lemma_int_sqrt(ls * (SCALE as int));
    let len = int_sqrt(ls * (SCALE as int));
    let l2 = len * len;
    assert(len >= 65536) by (nonlinear_arith)
        requires
            ls >= 65536,
            0 <= len,
            ls * 65536 < (len + 1) * (len + 1),
    ;
    assert(l2 >= 4294967296) by (nonlinear_arith)
        requires
            len >= 65536,
            l2 == len * len,
    ;
    lemma_unit_bound(a);
    let u = s_unit(a);
    lemma_unit_sq_err(a.x, u.x, len, l2);
    lemma_unit_sq_err(a.y, u.y, len, l2);
    lemma_unit_sq_err(a.z, u.z, len, l2);
    let tt = u.x * u.x + u.y * u.y + u.z * u.z;
    let aa = a.x * a.x + a.y * a.y + a.z * a.z;
    assert(tt * l2 == (u.x * u.x) * l2 + (u.y * u.y) * l2 + (u.z * u.z) * l2)
        by (nonlinear_arith)
        requires
            tt == u.x * u.x + u.y * u.y + u.z * u.z,
    ;
    assert(4294967296 * aa - 983040 * l2 <= tt * l2 <= 4294967296 * aa + 983040 * l2);
    // the raw squared length against its fixed-point form
    lemma_sq_quantization(a.x);
    lemma_sq_quantization(a.y);
    lemma_sq_quantization(a.z);
    assert(65536 * ls <= aa);
    assert(aa < 65536 * ls + 196608);
    // lower bound on the sum of squares of the unit's components
    assert(l2 <= aa);
    assert(tt * l2 >= 4294967296 * l2 - 983040 * l2);
    assert(tt >= 4293984256) by (nonlinear_arith)
        requires
            tt * l2 >= 4293984256 * l2,
            l2 >= 1,
    ;
    // upper bound on the same sum
    assert((len + 1) * (len + 1) == l2 + 2 * len + 1) by (nonlinear_arith)
        requires
            l2 == len * len,
    ;
    assert(aa < l2 + 2 * len + 196609);
    assert(8589934592 * len <= 131072 * l2) by (nonlinear_arith)
        requires
            len >= 65536,
            l2 == len * len,
    ;
    assert(4294967296 * 196609 <= 262144 * l2) by (nonlinear_arith)
        requires
            l2 >= 4294967296,
    ;
    assert(4294967296 * aa < 4294967296 * l2 + 393216 * l2);
    assert(tt * l2 < 4296343552 * l2);
    assert(tt <= 4296343552) by (nonlinear_arith)
        requires
            tt * l2 < 4296343552 * l2,
            l2 >= 1,
    ;
    // from raw squares to the fixed-point squared length of the unit
    let bb = s_ls(u);
    lemma_sq_quantization(u.x);
    lemma_sq_quantization(u.y);
    lemma_sq_quantization(u.z);
    assert(65536 * bb <= tt);
    assert(tt < 65536 * bb + 196608);
    assert(65518 <= bb <= 65557);
    // and to its square root
    lemma_int_sqrt(bb * (SCALE as int));
    let ll = int_sqrt(bb * (SCALE as int));
    assert(65520 <= ll <= 65552) by (nonlinear_arith)
        requires
            65518 <= bb <= 65557,
            0 <= ll,
            ll * ll <= bb * 65536,
            bb * 65536 < (ll + 1) * (ll + 1),
    ;
}

/// One component of the normalization error: the square of the scaled
/// quotient differs from the square of the scaled value by less than
/// five units times the squared length.
proof fn lemma_unit_sq_err(c: int, q: int, len: int, l2: int)
    requires
        len >= 65536,
        l2 == len * len,
        q == fdiv(c, len),
        iabs(q) <= 131072,
    ensures
        4294967296 * (c * c) - 327680 * l2 <= (q * q) * l2 <= 4294967296 * (c * c) + 327680 * l2,
{
    crate::fixed::lemma_tdiv_remainder(c * (SCALE as int), len);
    let r = c * 65536 - q * len;
    assert((c * 65536) * (c * 65536) == 4294967296 * (c * c)) by (nonlinear_arith);
    assert((q * q) * l2 - (c * 65536) * (c * 65536) == -(2 * q * len * r) - r * r)
        by (nonlinear_arith)
        requires
            c * 65536 == q * len + r,
            l2 == len * len,
    ;
    assert(-(327680 * l2) <= -(2 * q * len * r) - r * r <= 327680 * l2) by (nonlinear_arith)
        requires
            -131072 <= q <= 131072,
            -len < r < len,
            len >= 65536,
            l2 == len * len,
    ;
}

/// Squaring in fixed point loses less than one unit: the scaled
/// fixed-point square sits within one scale of the raw square.
proof fn lemma_sq_quantization(c: int)
    ensures
        65536 * fmul(c, c) <= c * c,
        c * c < 65536 * fmul(c, c) + 65536,
{
    lemma_square_nonneg(c);
    crate::fixed::lemma_tdiv_remainder(c * c, SCALE as int);
    assert(tdiv(c * c, SCALE as int) * 65536 <= c * c) by (nonlinear_arith)
        requires
            tdiv(c * c, SCALE as int) == (c * c) / 65536,
            c * c >= 0,
    ;
}

/// One component of the round trip through normalization: dividing by
/// the length and multiplying back loses at most the two truncations.
proof fn lemma_unit_back_comp(c: int, len: int)
    requires
        len >= 256,
    ensures
        iabs(fmul(fdiv(c, len), len) - c) <= len / 65536 + 2,
{
    let s = SCALE as int;
    let q = tdiv(c * s, len);
    crate::fixed::lemma_tdiv_remainder(c * s, len);
    let m = tdiv(q * len, s);
    crate::fixed::lemma_tdiv_remainder(q * len, s);
    assert(-len < c * 65536 - q * len < len);
    assert(-65536 < q * len - m * 65536 < 65536);
    assert(iabs(m - c) <= len / 65536 + 2) by (nonlinear_arith)
        requires
            -len < c * 65536 - q * len < len,
            -65536 < q * len - m * 65536 < 65536,
            len >= 256,
    ;
}

impl Vec3 {
    /// The all-zero vector.
    pub fn zeros() -> (r: Vec3)
        ensures
            r@ == v3_zero(),
    {
        Vec3 { x: 0, y: 0, z: 0 }
    }

    pub fn new(x: i128, y: i128, z: i128) -> (r: Vec3)
        ensures
            r@ == (V3 { x: x as int, y: y as int, z: z as int }),
    {
        Vec3 { x, y, z }
    }

    /// The component along the given axis; the only axes are 0, 1 and 2.
    pub fn index(&self, i: u8) -> (r: i128)
        requires
            i < 3,
        ensures
            r == if i == 0 {
                self@.x
            } else if i == 1 {
                self@.y
            } else {
                self@.z
            },
    {
        if i == 0 {
            self.x
        } else if i == 1 {
            self.y
        } else {
            self.z
        }
    }

    pub fn neg(&self) -> (r: Vec3)
        requires
            v3_in(self@, VB as int),
        ensures
            r@ == s_neg(self@),
    {
        Vec3 { x: -self.x, y: -self.y, z: -self.z }
    }

    pub fn add(&self, rhs: &Vec3) -> (r: Vec3)
        requires
            v3_in(self@, VB as int),
            v3_in(rhs@, VB as int),
        ensures
            r@ == s_add(self@, rhs@),
    {
        Vec3 { x: self.x + rhs.x, y: self.y + rhs.y, z: self.z + rhs.z }
    }

    pub fn sub(&self, rhs: &Vec3) -> (r: Vec3)
        requires
            v3_in(self@, VB as int),
            v3_in(rhs@, VB as int),
        ensures
            r@ == s_sub(self@, rhs@),
    {
        Vec3 { x: self.x - rhs.x, y: self.y - rhs.y, z: self.z - rhs.z }
    }

    pub fn add_assign(&mut self, rhs: Vec3)
        requires
            v3_in(old(self)@, VB as int),
            v3_in(rhs@, VB as int),
        ensures
            final(self)@ == s_add(old(self)@, rhs@),
    {
        self.x = self.x + rhs.x;
        self.y = self.y + rhs.y;
        self.z = self.z + rhs.z;
    }

    pub fn sub_assign(&mut self, rhs: Vec3)
        requires
            v3_in(old(self)@, VB as int),
            v3_in(rhs@, VB as int),
        ensures
            final(self)@ == s_sub(old(self)@, rhs@),
    {
        self.x = self.x - rhs.x;
        self.y = self.y - rhs.y;
        self.z = self.z - rhs.z;
    }

    /// The vector scaled by a fixed-point scalar.
    pub fn scale(&self, k: i128) -> (r: Vec3)
        requires
            v3_in(self@, VB as int),
            iabs(k as int) <= VB as int,
        ensures
            r@ == s_scale(self@, k as int),
    {
        proof {
            lemma_fmul_bound(self@.x, k as int, VB as int, VB as int);
            lemma_fmul_bound(self@.y, k as int, VB as int, VB as int);
            lemma_fmul_bound(self@.z, k as int, VB as int, VB as int);
        }
        Vec3 { x: mul_fx(self.x, k), y: mul_fx(self.y, k), z: mul_fx(self.z, k) }
    }

    pub fn mul_assign(&mut self, k: i128)
        requires
            v3_in(old(self)@, VB as int),
            iabs(k as int) <= VB as int,
        ensures
            final(self)@ == s_scale(old(self)@, k as int),
    {
        let r = self.scale(k);
        self.x = r.x;
        self.y = r.y;
        self.z = r.z;
    }

    /// Componentwise product of two vectors.
    pub fn mul(&self, rhs: &Vec3) -> (r: Vec3)
        requires
            v3_in(self@, VB as int),
            v3_in(rhs@, VB as int),
        ensures
            r@ == s_mulv(self@, rhs@),
    {
        proof {
            lemma_fmul_bound(self@.x, rhs@.x, VB as int, VB as int);
            lemma_fmul_bound(self@.y, rhs@.y, VB as int, VB as int);
            lemma_fmul_bound(self@.z, rhs@.z, VB as int, VB as int);
        }
        Vec3 { x: mul_fx(self.x, rhs.x), y: mul_fx(self.y, rhs.y), z: mul_fx(self.z, rhs.z) }
    }

    /// The vector divided by a fixed-point scalar.
    pub fn div(&self, k: i128) -> (r: Vec3)
        requires
            v3_in(self@, VB as int),
            k != 0,
        ensures
            r@ == s_divs(self@, k as int),
    {
        Vec3 { x: div_fx(self.x, k), y: div_fx(self.y, k), z: div_fx(self.z, k) }
    }

    pub fn div_assign(&mut self, k: i128)
        requires
            v3_in(old(self)@, VB as int),
            k != 0,
        ensures
            final(self)@ == s_divs(old(self)@, k as int),
    {
        let r = self.div(k);
        self.x = r.x;
        self.y = r.y;
        self.z = r.z;
    }

    pub fn dot(&self, rhs: &Vec3) -> (r: i128)
        requires
            v3_in(self@, VB as int),
            v3_in(rhs@, VB as int),
        ensures
            r == s_dot(self@, rhs@),
    {
        proof {
            lemma_fmul_bound(self@.x, rhs@.x, VB as int, VB as int);
            lemma_fmul_bound(self@.y, rhs@.y, VB as int, VB as int);
            lemma_fmul_bound(self@.z, rhs@.z, VB as int, VB as int);
        }
        mul_fx(self.x, rhs.x) + mul_fx(self.y, rhs.y) + mul_fx(self.z, rhs.z)
    }

    pub fn cross(&self, rhs: &Vec3) -> (r: Vec3)
        requires
            v3_in(self@, VB as int),
            v3_in(rhs@, VB as int),
        ensures
            r@ == s_cross(self@, rhs@),
    {
        proof {
            lemma_fmul_bound(self@.x, rhs@.x, VB as int, VB as int);
            lemma_fmul_bound(self@.x, rhs@.y, VB as int, VB as int);
            lemma_fmul_bound(self@.x, rhs@.z, VB as int, VB as int);
            lemma_fmul_bound(self@.y, rhs@.x, VB as int, VB as int);
            lemma_fmul_bound(self@.y, rhs@.y, VB as int, VB as int);
            lemma_fmul_bound(self@.y, rhs@.z, VB as int, VB as int);
            lemma_fmul_bound(self@.z, rhs@.x, VB as int, VB as int);
            lemma_fmul_bound(self@.z, rhs@.y, VB as int, VB as int);
            lemma_fmul_bound(self@.z, rhs@.z, VB as int, VB as int);
        }
        Vec3 {
            x: mul_fx(self.y, rhs.z) - mul_fx(self.z, rhs.y),
            y: mul_fx(self.z, rhs.x) - mul_fx(self.x, rhs.z),
            z: mul_fx(self.x, rhs.y) - mul_fx(self.y, rhs.x),
        }
    }

    pub fn length_squared(&self) -> (r: i128)
        requires
            v3_in(self@, VB as int),
        ensures
            r == s_ls(self@),
            r >= 0,
    {
        proof {
            lemma_ls_parts(self@);
        }
        self.dot(self)
    }

    pub fn length(&self) -> (r: i128)
        requires
            v3_in(self@, VB as int),
        ensures
            r == s_len(self@),
            r >= 0,
    {
        let ls = self.length_squared();
        proof {
            lemma_dot_bound(self@, self@, VB as int, VB as int);
        }
        sqrt_fx(ls)
    }

    /// The vector scaled to unit length. A caller must rule out vectors
    /// whose squared length rounds to nothing.
    pub fn unit_vec(&self) -> (r: Vec3)
        requires
            v3_in(self@, VB as int),
            s_ls(self@) >= 1,
        ensures
            r@ == s_unit(self@),
            v3_in(r@, 2 * (SCALE as int)),
    {
        let len = self.length();
        proof {
            lemma_unit_bound(self@);
        }
        self.div(len)
    }

    /// A copy with every component clamped to `[lo, hi]`.
    pub fn clamped(self, lo: i128, hi: i128) -> (r: Vec3)
        requires
            lo <= hi,
        ensures
            r@ == s_clamped(self@, lo as int, hi as int),
    {
        Vec3 {
            x: clamp_fx(self.x, lo, hi),
            y: clamp_fx(self.y, lo, hi),
            z: clamp_fx(self.z, lo, hi),
        }
    }

    /// True when every component is smaller in magnitude than 1e-8,
    /// which at this resolution means exactly zero.
    pub fn near_zero(&self) -> (r: bool)
        ensures
            r == (self@ == v3_zero()),
    {
        self.x == 0 && self.y == 0 && self.z == 0
    }

    /// A vector whose components are drawn uniformly from `[lo, hi)`.
    pub fn random(lo: i128, hi: i128) -> (r: Vec3)
        requires
            lo < hi,
        ensures
            lo as int <= r@.x < hi as int,
            lo as int <= r@.y < hi as int,
            lo as int <= r@.z < hi as int,
    {
        Vec3 {
            x: rand_raw_in(lo, hi),
            y: rand_raw_in(lo, hi),
            z: rand_raw_in(lo, hi),
        }
    }

    /// A random point strictly inside the unit sphere, by rejection
    /// sampling. If no draw lands inside, the center is returned.
    pub fn random_in_unit_sphere() -> (r: Vec3)
        ensures
            v3_in(r@, SCALE as int),
            s_ls(r@) < SCALE as int,
    {
        let mut tries: u32 = 0;
        while tries < 64
            invariant
                tries <= 64,
            decreases 64 - tries,
        {
            let p = Vec3::random(-SCALE, SCALE);
            if p.length_squared() < SCALE {
                return p;
            }
            tries = tries + 1;
        }
        proof {
            lemma_ls_parts(v3_zero());
        }
        Vec3 { x: 0, y: 0, z: 0 }
    }

    /// A random direction of unit length: a point in the unit sphere,
    /// normalized. Draws that are too short to normalize are rejected;
    /// if no draw succeeds, a fixed unit direction is returned.
    pub fn random_unit_vector() -> (r: Vec3)
        ensures
            v3_in(r@, 2 * (SCALE as int)),
    {
        let mut tries: u32 = 0;
        while tries < 64
            invariant
                tries <= 64,
            decreases 64 - tries,
        {
            let p = Vec3::random(-SCALE, SCALE);
            let ls = p.length_squared();
            if 1 <= ls && ls < SCALE {
                return p.unit_vec();
            }
            tries = tries + 1;
        }
        Vec3 { x: SCALE, y: 0, z: 0 }
    }

    /// A random point in the unit sphere on the same side of the
    /// surface as `normal`.
    pub fn random_in_hemisphere(normal: &Vec3) -> (r: Vec3)
        requires
            v3_in(normal@, VB as int),
        ensures
            v3_in(r@, SCALE as int),
            s_dot(r@, normal@) >= 0,
    {
        let in_unit_sphere = Vec3::random_in_unit_sphere();
        let d = in_unit_sphere.dot(normal);
        if d > 0 {
            proof {
                lemma_dot_bound(in_unit_sphere@, normal@, SCALE as int, VB as int);
            }
            in_unit_sphere
        } else {
            let r = in_unit_sphere.neg();
            assert(s_dot(r@, normal@) == -s_dot(in_unit_sphere@, normal@)) by {
                lemma_neg_dot(in_unit_sphere@, normal@);
            }
            r
        }
    }
}

/// Negating one operand negates a dot product.
proof fn lemma_neg_dot(a: V3, b: V3)
    ensures
        s_dot(s_neg(a), b) == -s_dot(a, b),
{
    lemma_neg_fmul(a.x, b.x);
    lemma_neg_fmul(a.y, b.y);
    lemma_neg_fmul(a.z, b.z);
}

/// Negating one factor negates a fixed-point product.
proof fn lemma_neg_fmul(a: int, b: int)
    ensures
        fmul(-a, b) == -fmul(a, b),
{
    assert((-a) * b == -(a * b)) by (nonlinear_arith);
    lemma_tdiv_neg(a * b, SCALE as int);
}

/// A bound on a scaled vector from bounds on its parts.
pub proof fn lemma_scale_bound(a: V3, k: int, ba: int, bk: int)
    requires
        v3_in(a, ba),
        iabs(k) <= bk,
        0 <= ba,
        0 <= bk,
    ensures
        v3_in(s_scale(a, k), (ba * bk) / (SCALE as int)),
{
    lemma_fmul_bound(a.x, k, ba, bk);
    lemma_fmul_bound(a.y, k, ba, bk);
    lemma_fmul_bound(a.z, k, ba, bk);
}

/// Mirror reflection of `v` about the normal `n`.
pub fn reflect(v: &Vec3, n: &Vec3) -> (r: Vec3)
    requires
        v3_in(v@, 4 * (SCALE as int)),
        v3_in(n@, 4 * (SCALE as int)),
    ensures
        r@ == s_reflect(v@, n@),
        v3_in(r@, 400 * (SCALE as int)),
{
    proof {
        assert(SCALE as int == 65536);
        assert((262144int * 262144int) / 65536int == 1048576int);
        lemma_dot_bound(v@, n@, 262144, 262144);
    }
    let d = v.dot(n);
    let k2: i128 = 2 * d;
    proof {
        assert((262144int * 6291456int) / 65536int == 25165824int);
        lemma_scale_bound(n@, k2 as int, 262144, 6291456);
    }
    let k = n.scale(k2);
    v.sub(&k)
}

/// Snell refraction of the unit direction `uv` at a surface with unit
/// normal `n`; `ratio` is the quotient of the refractive indices on the
/// two sides.
pub fn refract(uv: &Vec3, n: &Vec3, ratio: i128) -> (r: Vec3)
    requires
        v3_in(uv@, 4 * (SCALE as int)),
        v3_in(n@, 4 * (SCALE as int)),
        iabs(ratio as int) <= 16 * (SCALE as int),
    ensures
        r@ == s_refract(uv@, n@, ratio as int),
        v3_in(r@, 0x2_0000_0000),
{
    let s = SCALE;
    let minus_uv = uv.neg();
    proof {
        assert(SCALE as int == 65536);
        assert((262144int * 262144int) / 65536int == 1048576int);
        lemma_dot_bound(minus_uv@, n@, 262144, 262144);
    }
    let d = minus_uv.dot(n);
    let cos_theta = if d <= s { d } else { s };
    proof {
        assert((262144int * 3145728int) / 65536int == 12582912int);
        lemma_scale_bound(n@, cos_theta as int, 262144, 3145728);
    }
    let cn = n.scale(cos_theta);
    let inner = uv.add(&cn);
    proof {
        assert((12845056int * 1048576int) / 65536int == 205520896int);
        lemma_scale_bound(inner@, ratio as int, 12845056, 1048576);
    }
    let r_out_perp = inner.scale(ratio);
    proof {
        assert((205520896int * 205520896int) / 65536int == 644513529856int);
        lemma_dot_bound(r_out_perp@, r_out_perp@, 205520896, 205520896);
    }
    let ls = r_out_perp.length_squared();
    let gap = if s - ls >= 0 { s - ls } else { ls - s };
    let root = sqrt_fx(gap);
    proof {
        lemma_int_sqrt(gap as int * (SCALE as int));
        assert(root <= 536870912) by (nonlinear_arith)
            requires
                0 <= root,
                root * root <= gap as int * 65536,
                gap as int <= 1933540655104,
        ;
        assert((262144int * 536870912int) / 65536int == 2147483648int);
        lemma_scale_bound(n@, -root as int, 262144, 536870912);
    }
    let r_out_parallel = n.scale(-root);
    r_out_perp.add(&r_out_parallel)
}

/// A unit vector along one coordinate axis, where fixed-point products
/// are exact.
pub open spec fn axis_unit(n: V3) -> bool {
    ||| (iabs(n.x) == SCALE as int && n.y == 0 && n.z == 0)
    ||| (n.x == 0 && iabs(n.y) == SCALE as int && n.z == 0)
    ||| (n.x == 0 && n.y == 0 && iabs(n.z) == SCALE as int)
}

/// Multiplying by a component of an axis-unit vector is exact: it
/// copies, negates or clears the other factor.
proof fn lemma_fmul_axis(u: int, a: int)
    requires
        u == 0 || iabs(u) == SCALE as int,
    ensures
        fmul(u, a) == if u > 0 {
            a
        } else if u < 0 {
            -a
        } else {
            0
        },
        fmul(a, u) == if u > 0 {
            a
        } else if u < 0 {
            -a
        } else {
            0
        },
{
    if u == 0 {
        assert(0 * a == 0) by (nonlinear_arith);
        assert(a * 0 == 0) by (nonlinear_arith);
    } else {
        lemma_fmul_unit(u, a);
    }
}

/// A vector striking a surface head-on reflects straight back: for a
/// unit normal `n` along an axis and `v` parallel to `-n`,
/// `reflect(v, n)` is `-v`. Away from the axes, fixed-point rounding
/// can shift the result by a few steps, so those normals are outside
/// this statement.
pub proof fn lemma_reflect_head_on(v: V3, n: V3, k: int)
    requires
        axis_unit(n),
        0 <= k,
        v == s_scale(n, -k),
    ensures
        s_reflect(v, n) == s_neg(v),
{
    lemma_fmul_axis(n.x, -k);
    lemma_fmul_axis(n.y, -k);
    lemma_fmul_axis(n.z, -k);
    lemma_fmul_axis(n.x, v.x);
    lemma_fmul_axis(n.y, v.y);
    lemma_fmul_axis(n.z, v.z);
    let d = s_dot(v, n);
    lemma_fmul_axis(n.x, 2 * d);
    lemma_fmul_axis(n.y, 2 * d);
    lemma_fmul_axis(n.z, 2 * d);
}

/// At matched refractive indices a ray passes straight through: for a
/// unit normal `n` along an axis and a fixed-point-unit `v` pointing
/// into the surface whose component along the normal's axis squares
/// exactly, `refract(v, n, 1)` is `v` itself. A `v` whose axis
/// component does not square exactly (such as one with `0.3` along the
/// axis) can come back shifted by a rounding step and is outside this
/// statement.
pub proof fn lemma_refract_matched(v: V3, n: V3)
    requires
        axis_unit(n),
        s_ls(v) == SCALE as int,
        s_dot(v, n) <= 0,
        n.x != 0 ==> (v.x * v.x) % 65536 == 0,
        n.y != 0 ==> (v.y * v.y) % 65536 == 0,
        n.z != 0 ==> (v.z * v.z) % 65536 == 0,
    ensures
        s_refract(v, n, SCALE as int) == v,
{
    let s = SCALE as int;
    lemma_ls_parts(v);
    let c = if n.x != 0 {
        v.x
    } else if n.y != 0 {
        v.y
    } else {
        v.z
    };
    lemma_comp_le_unit(c);
    lemma_fmul_axis(n.x, v.x);
    lemma_fmul_axis(n.y, v.y);
    lemma_fmul_axis(n.z, v.z);
    lemma_neg_dot(v, n);
    let cos = s_dot(s_neg(v), n);
    assert(cos == iabs(c));
    lemma_fmul_axis(n.x, cos);
    lemma_fmul_axis(n.y, cos);
    lemma_fmul_axis(n.z, cos);
    let inner = s_add(v, s_scale(n, cos));
    lemma_fmul_unit(s, inner.x);
    lemma_fmul_unit(s, inner.y);
    lemma_fmul_unit(s, inner.z);
    let perp = s_scale(inner, s);
    assert(perp == inner);
    lemma_square_nonneg(c);
    lemma_fmul_axis(0, 0);
    if n.x != 0 {
        assert(inner == V3 { x: 0, y: v.y, z: v.z });
    } else if n.y != 0 {
        assert(inner == V3 { x: v.x, y: 0, z: v.z });
    } else {
        assert(inner == V3 { x: v.x, y: v.y, z: 0 });
    }
    assert(s_ls(perp) == s_ls(v) - fmul(c, c));
    let gap = iabs(s - s_ls(perp));
    assert(gap == fmul(c, c));
    assert(tdiv(c * c, s) == (c * c) / 65536);
    lemma_div_exact(c * c, 65536);
    assert(fmul(c, c) * 65536 == c * c);
    let ac = iabs(c);
    assert(ac * ac == c * c && c * c < (ac + 1) * (ac + 1)) by (nonlinear_arith)
        requires
            ac == if c >= 0 {
                c
            } else {
                -c
            },
    ;
    lemma_int_sqrt_unique(c * c, ac);
    assert(fsqrt(gap) == ac);
    lemma_fmul_axis(n.x, -iabs(c));
    lemma_fmul_axis(n.y, -iabs(c));
    lemma_fmul_axis(n.z, -iabs(c));
}

} // verus!
