//! Signed 16.16 fixed-point scalars.
//!
//! A raw `i128` value `r` stands for the real number `r / SCALE`. All
//! arithmetic on scalars truncates toward zero, like hardware division.

use vstd::prelude::*;

verus! {

/// One whole unit: the raw value standing for the real number 1.
pub const SCALE: i128 = 65536;

/// Absolute value of a mathematical integer.
pub open spec fn iabs(x: int) -> int {
    if x >= 0 {
        x
    } else {
        -x
    }
}

/// Integer division truncating toward zero (the behaviour of `/` on
/// machine integers), expressed through Euclidean division on `int`.
pub open spec fn tdiv(a: int, b: int) -> int {
    if a == 0 {
        0
    } else if a > 0 && b > 0 {
        a / b
    } else if a < 0 && b < 0 {
        (a * -1) / (b * -1)
    } else if a < 0 {
        ((a * -1) / b) * -1
    } else {
        (a / (b * -1)) * -1
    }
}

/// Product of two fixed-point scalars.
pub open spec fn fmul(a: int, b: int) -> int {
    tdiv(a * b, SCALE as int)
}

/// Quotient of two fixed-point scalars.
pub open spec fn fdiv(a: int, b: int) -> int {
    tdiv(a * (SCALE as int), b)
}

/// The integer square root: the greatest `r` with `r * r <= n`.
pub open spec fn int_sqrt(n: int) -> int {
    choose|r: int| 0 <= r && #[trigger] (r * r) <= n && n < (r + 1) * (r + 1)
}

/// Square root of a non-negative fixed-point scalar.
pub open spec fn fsqrt(a: int) -> int {
    int_sqrt(a * (SCALE as int))
}

/// Every non-negative integer has an integer square root.
proof fn lemma_sqrt_exists(n: int)
    requires
        n >= 0,
    ensures
        exists|r: int| 0 <= r && #[trigger] (r * r) <= n && n < (r + 1) * (r + 1),
    decreases n,
{
    if n == 0 {
        assert(0 <= 0int && 0int * 0int <= n && n < (0int + 1) * (0int + 1)) by (nonlinear_arith)
            requires
                n == 0,
        ;
    } else {
        lemma_sqrt_exists(n - 1);
        let r = choose|r: int| 0 <= r && #[trigger] (r * r) <= n - 1 && n - 1 < (r + 1) * (r + 1);
        if (r + 1) * (r + 1) <= n {
            assert(0 <= r + 1 && (r + 1) * (r + 1) <= n && n < (r + 1 + 1) * (r + 1 + 1))
                by (nonlinear_arith)
                requires
                    0 <= r,
                    (r + 1) * (r + 1) <= n,
                    n - 1 < (r + 1) * (r + 1),
            ;
        } else {
            assert(0 <= r && r * r <= n && n < (r + 1) * (r + 1));
        }
    }
}

/// `int_sqrt(n)` satisfies the square-root characterisation.
pub proof fn lemma_int_sqrt(n: int)
    requires
        n >= 0,
    ensures
        0 <= int_sqrt(n),
        int_sqrt(n) * int_sqrt(n) <= n,
        n < (int_sqrt(n) + 1) * (int_sqrt(n) + 1),
{
    lemma_sqrt_exists(n);
}

/// Any integer satisfying the square-root characterisation is `int_sqrt(n)`.
pub proof fn lemma_int_sqrt_unique(n: int, r: int)
    requires
        0 <= r,
        r * r <= n,
        n < (r + 1) * (r + 1),
    ensures
        r == int_sqrt(n),
{
    lemma_int_sqrt(n);
    let s = int_sqrt(n);
    assert(r == s) by (nonlinear_arith)
        requires
            0 <= r,
            r * r <= n,
            n < (r + 1) * (r + 1),
            0 <= s,
            s * s <= n,
            n < (s + 1) * (s + 1),
    ;
}

/// A non-negative numerator divided by a positive divisor stays
/// between zero and itself.
pub proof fn lemma_div_bounds(x: int, y: int)
    requires
        0 <= x,
        1 <= y,
    ensures
        0 <= x / y <= x,
{
    assert(0 <= x / y <= x) by (nonlinear_arith)
        requires
            0 <= x,
            1 <= y,
    ;
}

/// Division by a positive divisor is monotone in the numerator.
pub proof fn lemma_div_mono_num(x: int, m: int, y: int)
    requires
        0 <= x <= m,
        1 <= y,
    ensures
        x / y <= m / y,
{
    assert(x / y <= m / y) by (nonlinear_arith)
        requires
            0 <= x <= m,
            1 <= y,
    ;
}

/// Growing a positive divisor cannot grow the quotient.
pub proof fn lemma_div_mono_den(m: int, y: int, d: int)
    requires
        0 <= m,
        1 <= d <= y,
    ensures
        m / y <= m / d,
{
    assert(m / y <= m / d) by (nonlinear_arith)
        requires
            0 <= m,
            1 <= d <= y,
    ;
}

/// Negating the numerator negates a truncating quotient.
pub proof fn lemma_tdiv_neg(x: int, b: int)
    requires
        b != 0,
    ensures
        tdiv(-x, b) == -tdiv(x, b),
{
}

/// Negating the divisor negates a truncating quotient.
pub proof fn lemma_tdiv_neg_den(x: int, b: int)
    requires
        b != 0,
    ensures
        tdiv(x, -b) == -tdiv(x, b),
{
}

/// Truncating division never grows in magnitude.
pub proof fn lemma_tdiv_mag(a: int, b: int)
    requires
        b != 0,
    ensures
        iabs(tdiv(a, b)) <= iabs(a),
{
    if a == 0 {
    } else if a > 0 && b > 0 {
        lemma_div_bounds(a, b);
    } else if a < 0 && b < 0 {
        lemma_div_bounds(a * -1, b * -1);
    } else if a < 0 {
        lemma_div_bounds(a * -1, b);
    } else {
        lemma_div_bounds(a, b * -1);
    }
}

/// Truncating division by a positive divisor is monotone in the
/// magnitude of the numerator.
pub proof fn lemma_tdiv_mag_le(a: int, m: int, b: int)
    requires
        b > 0,
        iabs(a) <= m,
    ensures
        iabs(tdiv(a, b)) <= m / b,
{
    if a == 0 {
        lemma_div_bounds(m, b);
    } else if a > 0 {
        lemma_div_bounds(a, b);
        lemma_div_mono_num(a, m, b);
    } else {
        lemma_div_bounds(a * -1, b);
        lemma_div_mono_num(a * -1, m, b);
    }
}

/// Bound on a fixed-point product from bounds on its factors.
pub proof fn lemma_fmul_bound(a: int, b: int, ba: int, bb: int)
    requires
        iabs(a) <= ba,
        iabs(b) <= bb,
    ensures
        iabs(fmul(a, b)) <= (ba * bb) / (SCALE as int),
        iabs(a * b) <= ba * bb,
{
    assert(-(ba * bb) <= a * b <= ba * bb) by (nonlinear_arith)
        requires
            -ba <= a <= ba,
            -bb <= b <= bb,
    ;
    lemma_tdiv_mag_le(a * b, ba * bb, SCALE as int);
}

/// Bound on a fixed-point quotient from a bound on the numerator and a
/// positive lower bound on the magnitude of the divisor.
pub proof fn lemma_fdiv_bound(a: int, b: int, ba: int, db: int)
    requires
        iabs(a) <= ba,
        iabs(b) >= db,
        db >= 1,
    ensures
        iabs(fdiv(a, b)) <= (ba * (SCALE as int)) / db,
{
    let s = SCALE as int;
    assert(iabs(a * s) <= ba * s);
    if b > 0 {
        lemma_tdiv_mag_le(a * s, ba * s, b);
        lemma_div_mono_den(ba * s, b, db);
    } else {
        lemma_tdiv_neg_den(a * s, -b);
        lemma_tdiv_mag_le(a * s, ba * s, -b);
        lemma_div_mono_den(ba * s, -b, db);
    }
}

/// Truncating division leaves a remainder smaller than the divisor.
pub proof fn lemma_tdiv_remainder(x: int, b: int)
    requires
        b > 0,
    ensures
        iabs(x - tdiv(x, b) * b) < b,
{
    if x == 0 {
    } else if x > 0 {
        vstd::arithmetic::div_mod::lemma_fundamental_div_mod(x, b);
        vstd::arithmetic::div_mod::lemma_mod_bound(x, b);
        assert(b * (x / b) == (x / b) * b) by (nonlinear_arith);
    } else {
        vstd::arithmetic::div_mod::lemma_fundamental_div_mod(x * -1, b);
        vstd::arithmetic::div_mod::lemma_mod_bound(x * -1, b);
        assert(b * ((x * -1) / b) == ((x * -1) / b) * b) by (nonlinear_arith);
        assert(x - (((x * -1) / b) * -1) * b == -((x * -1) - ((x * -1) / b) * b))
            by (nonlinear_arith);
    }
}

/// Truncating division by a positive divisor is monotone.
pub proof fn lemma_tdiv_mono(x: int, y: int, b: int)
    requires
        x <= y,
        b > 0,
    ensures
        tdiv(x, b) <= tdiv(y, b),
{
    if x >= 0 {
        lemma_div_mono_num(x, y, b);
    } else if y < 0 {
        lemma_div_mono_num(y * -1, x * -1, b);
    } else {
        lemma_div_bounds(x * -1, b);
        lemma_div_bounds(y, b);
    }
}

/// Multiplying by plus or minus one whole unit is exact.
pub proof fn lemma_fmul_unit(u: int, a: int)
    requires
        iabs(u) == SCALE as int,
    ensures
        fmul(u, a) == if u > 0 {
            a
        } else {
            -a
        },
        fmul(a, u) == if u > 0 {
            a
        } else {
            -a
        },
{
    assert((a * 65536) / 65536 == a) by (nonlinear_arith);
    assert(((-a) * 65536) / 65536 == -a) by (nonlinear_arith);
    assert(a * 65536 == 65536 * a) by (nonlinear_arith);
    assert(a * -65536 == -(a * 65536)) by (nonlinear_arith);
    assert((-65536) * a == -(65536 * a)) by (nonlinear_arith);
    lemma_tdiv_neg(a * 65536, 65536);
}

/// Division is exact on multiples.
pub proof fn lemma_div_exact(x: int, b: int)
    requires
        b > 0,
        0 <= x,
        x % b == 0,
    ensures
        (x / b) * b == x,
{
    assert((x / b) * b == x) by (nonlinear_arith)
        requires
            b > 0,
            0 <= x,
            x % b == 0,
    ;
}

/// A value whose fixed-point square is at most one is itself at most
/// one unit in magnitude.
pub proof fn lemma_comp_le_unit(c: int)
    requires
        fmul(c, c) <= SCALE as int,
    ensures
        iabs(c) <= SCALE as int,
{
    assert(c * c >= 0) by (nonlinear_arith);
    assert(tdiv(c * c, SCALE as int) == (c * c) / 65536);
    assert(-65536 <= c <= 65536) by (nonlinear_arith)
        requires
            (c * c) / 65536 <= 65536,
            c * c >= 0,
    ;
}

/// Fixed-point multiplication. Truncates toward zero.
pub fn mul_fx(a: i128, b: i128) -> (r: i128)
    requires
        -i128::MAX <= a * b <= i128::MAX,
    ensures
        r == fmul(a as int, b as int),
{
    let p: i128 = a * b;
    proof {
        lemma_tdiv_mag(p as int, SCALE as int);
    }
    let q = p.checked_div(SCALE);
    q.unwrap()
}

/// Fixed-point division. Truncates toward zero.
pub fn div_fx(a: i128, b: i128) -> (r: i128)
    requires
        b != 0,
        -i128::MAX <= a * (SCALE as int) <= i128::MAX,
    ensures
        r == fdiv(a as int, b as int),
{
    let p: i128 = a * SCALE;
    proof {
        lemma_tdiv_mag(p as int, b as int);
    }
    let q = p.checked_div(b);
    q.unwrap()
}

/// Integer square root by bisection.
pub fn isqrt_u128(x: u128) -> (r: u128)
    ensures
        r * r <= x,
        x < (r + 1) * (r + 1),
{
    if x == 0 {
        return 0;
    }
    let mut lo: u128 = 0;
    let mut hi: u128 = 0x1_0000_0000_0000_0000;
    while hi - lo > 1
        invariant
            lo < hi,
            hi <= 0x1_0000_0000_0000_0000,
            lo * lo <= x,
            x < hi * hi,
        decreases hi - lo,
    {
        let mid = lo + (hi - lo) / 2;
        assert(mid < hi && lo < mid);
        assert(mid * mid <= 0xffff_ffff_ffff_ffff * 0xffff_ffff_ffff_ffff) by (nonlinear_arith)
            requires
                mid <= 0xffff_ffff_ffff_ffff,
        ;
        if mid * mid <= x {
            lo = mid;
        } else {
            hi = mid;
        }
    }
    assert(hi == lo + 1);
    lo
}

/// Square root of a non-negative fixed-point scalar.
pub fn sqrt_fx(a: i128) -> (r: i128)
    requires
        0 <= a,
        a * (SCALE as int) <= i128::MAX,
    ensures
        r == fsqrt(a as int),
        0 <= r,
{
    let p: i128 = a * SCALE;
    let s = isqrt_u128(p as u128);
    proof {
        assert(s <= 0xffff_ffff_ffff_ffff) by (nonlinear_arith)
            requires
                s * s <= p,
                p <= i128::MAX,
        ;
        lemma_int_sqrt_unique(p as int, s as int);
    }
    s as i128
}

/// Integer division truncating toward zero.
pub fn div_trunc(a: i128, b: i128) -> (r: i128)
    requires
        b != 0,
        a > i128::MIN,
    ensures
        r == tdiv(a as int, b as int),
{
    proof {
        lemma_tdiv_mag(a as int, b as int);
    }
    let q = a.checked_div(b);
    q.unwrap()
}

/// A scalar clamped to the inclusive range `[lo, hi]`.
pub fn clamp_fx(x: i128, lo: i128, hi: i128) -> (r: i128)
    requires
        lo <= hi,
    ensures
        r == spec_clamp(x as int, lo as int, hi as int),
{
    if x < lo {
        lo
    } else if x > hi {
        hi
    } else {
        x
    }
}

/// The clamp of `x` to `[lo, hi]`.
pub open spec fn spec_clamp(x: int, lo: int, hi: int) -> int {
    if x < lo {
        lo
    } else if x > hi {
        hi
    } else {
        x
    }
}

} // verus!
