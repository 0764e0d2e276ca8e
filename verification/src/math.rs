//! Fixed-point geometry: vectors in millimetres, angles in milliradians,
//! unit directions scaled by 1000, and the integer square root that the
//! distance computations rest on.

use vstd::prelude::*;

verus! {

/// Greatest coordinate magnitude the world admits, in millimetres (1 km).
pub const WORLD_MM: i64 = 1_000_000;

/// One thousandth of a radian; `PI_MRAD` is pi in that unit.
pub const PI_MRAD: i64 = 3142;

/// Half pi in milliradians.
pub const HALF_PI_MRAD: i64 = 1571;

/// Scale of unit vectors and of other 1000-based fixed-point fractions.
pub const MILLI: i64 = 1000;

/// A point or direction with integer coordinates.
/// Positions are in millimetres; directions are unit vectors scaled by 1000.
#[derive(Clone, Copy, PartialEq, Eq, Structural, Debug)]
pub struct Vec3i {
    pub x: i64,
    pub y: i64,
    pub z: i64,
}

/// The coordinates lie within the world bound.
pub open spec fn in_world(v: Vec3i) -> bool {
    -WORLD_MM <= v.x <= WORLD_MM && -WORLD_MM <= v.y <= WORLD_MM && -WORLD_MM <= v.z <= WORLD_MM
}

/// The components lie within the scaled-unit-vector bound (slack admits
/// rounding from normalisation).
pub open spec fn is_milli_dir(v: Vec3i) -> bool {
    -2 * MILLI <= v.x <= 2 * MILLI && -2 * MILLI <= v.y <= 2 * MILLI && -2 * MILLI <= v.z
        <= 2 * MILLI
}

/// Squared distance between two points, as unbounded integers.
pub open spec fn dist2(a: Vec3i, b: Vec3i) -> int {
    (a.x - b.x) * (a.x - b.x) + (a.y - b.y) * (a.y - b.y) + (a.z - b.z) * (a.z - b.z)
}

/// Squared distance on the horizontal plane, as unbounded integers.
pub open spec fn dist2_xz(a: Vec3i, b: Vec3i) -> int {
    (a.x - b.x) * (a.x - b.x) + (a.z - b.z) * (a.z - b.z)
}

/// Squared distance between two in-world points.
pub fn dist2_exec(a: Vec3i, b: Vec3i) -> (r: i64)
    requires
        in_world(a),
        in_world(b),
    ensures
        r == dist2(a, b),
        0 <= r <= 12_000_000_000_000,
{
    let dx: i64 = a.x - b.x;
    let dy: i64 = a.y - b.y;
    let dz: i64 = a.z - b.z;
    assert(0 <= dx * dx <= 4_000_000_000_000 && 0 <= dy * dy <= 4_000_000_000_000 && 0 <= dz * dz
        <= 4_000_000_000_000) by (nonlinear_arith)
        requires
            -2_000_000 <= dx <= 2_000_000,
            -2_000_000 <= dy <= 2_000_000,
            -2_000_000 <= dz <= 2_000_000,
        ;
    dx * dx + dy * dy + dz * dz
}

/// Squared horizontal distance between two in-world points.
pub fn dist2_xz_exec(a: Vec3i, b: Vec3i) -> (r: i64)
    requires
        in_world(a),
        in_world(b),
    ensures
        r == dist2_xz(a, b),
        0 <= r <= 8_000_000_000_000,
{
    let dx: i64 = a.x - b.x;
    let dz: i64 = a.z - b.z;
    assert(0 <= dx * dx <= 4_000_000_000_000 && 0 <= dz * dz <= 4_000_000_000_000)
        by (nonlinear_arith)
        requires
            -2_000_000 <= dx <= 2_000_000,
            -2_000_000 <= dz <= 2_000_000,
        ;
    dx * dx + dz * dz
}

/// The integer square root: the greatest `r` with `r * r <= n`.
pub open spec fn is_isqrt(n: int, r: int) -> bool {
    r >= 0 && r * r <= n && (r + 1) * (r + 1) > n
}

/// The integer square root as a function: the unique witness of `is_isqrt`.
pub open spec fn sqrt_floor(n: int) -> int {
    choose|r: int| #[trigger] is_isqrt(n, r)
}

/// Every nonnegative integer has an integer square root.
pub proof fn lemma_isqrt_exists(n: nat)
    ensures
        exists|r: int| is_isqrt(n as int, r),
    decreases n,
{
    if n == 0 {
        assert(is_isqrt(0, 0));
    } else {
        lemma_isqrt_exists((n - 1) as nat);
        let p = choose|r: int| #[trigger] is_isqrt(n as int - 1, r);
        if (p + 1) * (p + 1) <= n as int {
            assert(is_isqrt(n as int, p + 1)) by (nonlinear_arith)
                requires
                    p >= 0,
                    (p + 1) * (p + 1) <= n as int,
                    (p + 1) * (p + 1) > n as int - 1,
                ;
        } else {
            assert(is_isqrt(n as int, p));
        }
    }
}

/// Two integer square roots of the same value are equal.
pub proof fn lemma_isqrt_unique(n: int, r1: int, r2: int)
    requires
        is_isqrt(n, r1),
        is_isqrt(n, r2),
    ensures
        r1 == r2,
{
    assert(r1 == r2) by (nonlinear_arith)
        requires
            r1 >= 0 && r1 * r1 <= n < (r1 + 1) * (r1 + 1),
            r2 >= 0 && r2 * r2 <= n < (r2 + 1) * (r2 + 1),
        ;
}

/// A witness of `is_isqrt` equals `sqrt_floor`.
pub proof fn lemma_sqrt_floor_is(n: int, r: int)
    requires
        n >= 0,
        is_isqrt(n, r),
    ensures
        r == sqrt_floor(n),
{
    lemma_isqrt_exists(n as nat);
    let w = choose|q: int| #[trigger] is_isqrt(n, q);
    lemma_isqrt_unique(n, r, w);
}

/// Integer square root of a 64-bit value, by bisection.
pub fn isqrt64(n: u64) -> (r: u64)
    ensures
        is_isqrt(n as int, r as int),
        r == sqrt_floor(n as int),
{
    let mut lo: u64 = 0;
    let mut hi: u64 = 0x1_0000_0000;
    assert(hi * hi > n) by (nonlinear_arith)
        requires
            hi == 0x1_0000_0000u64,
            n <= u64::MAX,
        ;
    while lo + 1 < hi
        invariant
            lo < hi <= 0x1_0000_0000,
            lo * lo <= n,
            hi * hi > n,
        decreases hi - lo,
    {
        let mid: u64 = lo + (hi - lo) / 2;
        assert(mid * mid <= 0xffff_ffff * 0xffff_ffffu64) by (nonlinear_arith)
            requires
                mid <= 0xffff_ffffu64,
            ;
        if mid * mid <= n {
            lo = mid;
        } else {
            hi = mid;
        }
    }
    proof {
        lemma_sqrt_floor_is(n as int, lo as int);
    }
    lo
}

/// Integer square root of a 128-bit value, by bisection.
pub fn isqrt128(n: u128) -> (r: u128)
    ensures
        is_isqrt(n as int, r as int),
        r == sqrt_floor(n as int),
{
    let mut lo: u128 = 0;
    let mut hi: u128 = 0x1_0000_0000_0000_0000;
    assert(hi * hi > n) by (nonlinear_arith)
        requires
            hi == 0x1_0000_0000_0000_0000u128,
            n <= u128::MAX,
        ;
    while lo + 1 < hi
        invariant
            lo < hi <= 0x1_0000_0000_0000_0000,
            lo * lo <= n,
            hi * hi > n,
        decreases hi - lo,
    {
        let mid: u128 = lo + (hi - lo) / 2;
        assert(mid * mid <= 0xffff_ffff_ffff_ffff * 0xffff_ffff_ffff_ffffu128) by (nonlinear_arith)
            requires
                mid <= 0xffff_ffff_ffff_ffffu128,
            ;
        if mid * mid <= n {
            lo = mid;
        } else {
            hi = mid;
        }
    }
    proof {
        lemma_sqrt_floor_is(n as int, lo as int);
    }
    lo
}

/// The unique representative of `a` in `[-PI_MRAD, PI_MRAD)` modulo a full
/// turn.
pub open spec fn wrap_pi_spec(a: int) -> int {
    (a + PI_MRAD) % (2 * PI_MRAD) - PI_MRAD
}

proof fn lemma_wrap_fixed(r: int)
    requires
        -PI_MRAD <= r < PI_MRAD,
    ensures
        wrap_pi_spec(r) == r,
{
    vstd::arithmetic::div_mod::lemma_small_mod((r + PI_MRAD) as nat, (2 * PI_MRAD) as nat);
}

proof fn lemma_wrap_shift(a: int, k: int)
    ensures
        wrap_pi_spec(a + 2 * PI_MRAD * k) == wrap_pi_spec(a),
{
    vstd::arithmetic::div_mod::lemma_mod_multiples_vanish(k, a + PI_MRAD, 2 * PI_MRAD);
    assert(2 * PI_MRAD * k + (a + PI_MRAD) == (a + 2 * PI_MRAD * k) + PI_MRAD) by (nonlinear_arith);
}

/// Wraps an angle to `[-PI_MRAD, PI_MRAD)`, the canonical turn.
pub fn wrap_pi(a: i64) -> (r: i64)
    requires
        -1_000_000_000 <= a <= 1_000_000_000,
    ensures
        r == wrap_pi_spec(a as int),
        -PI_MRAD <= r < PI_MRAD,
{
    let mut r: i64 = a;
    while r >= PI_MRAD
        invariant
            wrap_pi_spec(r as int) == wrap_pi_spec(a as int),
            -1_000_000_000 <= r <= 1_000_000_000,
        decreases r + 1_100_000_000,
    {
        proof {
            lemma_wrap_shift((r - 2 * PI_MRAD) as int, 1);
        }
        r = r - 2 * PI_MRAD;
    }
    while r < -PI_MRAD
        invariant
            wrap_pi_spec(r as int) == wrap_pi_spec(a as int),
            -1_000_000_000 <= r < PI_MRAD,
        decreases 1_100_000_000 - r,
    {
        proof {
            lemma_wrap_shift(r as int, 1);
        }
        r = r + 2 * PI_MRAD;
    }
    proof {
        lemma_wrap_fixed(r as int);
    }
    r
}

/// Rational approximation of the sine on `[0, PI_MRAD]`, scaled by 1000.
pub open spec fn sin_half_spec(x: int) -> int {
    (16 * (x * (PI_MRAD - x)) * 1000) / (5 * PI_MRAD * PI_MRAD - 4 * (x * (PI_MRAD - x)))
}

/// Sine of an angle in the upper half turn, scaled by 1000.
fn sin_half(x: i64) -> (r: i64)
    requires
        0 <= x <= PI_MRAD,
    ensures
        r == sin_half_spec(x as int),
        0 <= r <= 1000,
{
    assert(0 <= (x as int) * (PI_MRAD - x) && 4 * ((x as int) * (PI_MRAD - x)) <= PI_MRAD * PI_MRAD)
        by (nonlinear_arith)
        requires
            0 <= x <= PI_MRAD,
        ;
    let p: u64 = (x as u64) * ((PI_MRAD - x) as u64);
    let num: u64 = 16 * p * 1000;
    let den: u64 = (5 * PI_MRAD * PI_MRAD) as u64 - 4 * p;
    let r: u64 = num / den;
    proof {
        vstd::arithmetic::div_mod::lemma_div_is_ordered(num as int, 1000 * den, den as int);
        vstd::arithmetic::div_mod::lemma_div_by_multiple(1000, den as int);
    }
    r as i64
}

/// Sine on the canonical turn: odd extension of the half-turn approximation.
pub open spec fn sin_mrad_spec(a: int) -> int {
    if a >= 0 {
        sin_half_spec(a)
    } else {
        -sin_half_spec(-a)
    }
}

/// Cosine as the sine of the angle advanced by a quarter turn.
pub open spec fn cos_mrad_spec(a: int) -> int {
    sin_mrad_spec(wrap_pi_spec(a + HALF_PI_MRAD))
}

/// Sine of a canonical angle, scaled by 1000.
pub fn sin_mrad(a: i64) -> (r: i64)
    requires
        -PI_MRAD <= a <= PI_MRAD,
    ensures
        r == sin_mrad_spec(a as int),
        -1000 <= r <= 1000,
{
    if a >= 0 {
        sin_half(a)
    } else {
        -sin_half(-a)
    }
}

/// Cosine of a canonical angle, scaled by 1000.
pub fn cos_mrad(a: i64) -> (r: i64)
    requires
        -PI_MRAD <= a <= PI_MRAD,
    ensures
        r == cos_mrad_spec(a as int),
        -1000 <= r <= 1000,
{
    let s: i64 = wrap_pi(a + HALF_PI_MRAD);
    sin_mrad(s)
}

/// Polynomial approximation of the arctangent on `[0, 1]` (argument scaled
/// by 1000), in milliradians.
pub open spec fn atan_frac_spec(q: int) -> int {
    (q * 785) / 1000 + (273 * q * (1000 - q)) / 1_000_000
}

/// Arctangent of `q / 1000` for `q` in `[0, 1000]`, in milliradians.
fn atan_frac(q: i64) -> (r: i64)
    requires
        0 <= q <= 1000,
    ensures
        r == atan_frac_spec(q as int),
        0 <= r <= 860,
{
    proof {
        assert(0 <= q * 785 <= 785_000 && 0 <= 273 * q * (1000 - q) <= 68_250_000)
            by (nonlinear_arith)
            requires
                0 <= q <= 1000,
            ;
        vstd::arithmetic::div_mod::lemma_div_pos_is_pos(q * 785, 1000);
        vstd::arithmetic::div_mod::lemma_div_is_ordered(q * 785, 785_000, 1000);
        vstd::arithmetic::div_mod::lemma_div_pos_is_pos(273 * q * (1000 - q), 1_000_000);
        vstd::arithmetic::div_mod::lemma_div_is_ordered(273 * q * (1000 - q), 68_250_000, 1_000_000);
    }
    let a: u64 = ((q * 785) as u64) / 1000;
    let b: u64 = ((273 * q * (1000 - q)) as u64) / 1_000_000;
    (a + b) as i64
}

/// The planar angle of the vector `(x, z)` in milliradians, measured from
/// the positive x axis toward positive z, in `[-PI_MRAD, PI_MRAD]`. The
/// zero vector maps to zero.
pub open spec fn atan2_mrad_spec(z: int, x: int) -> int {
    let ax = if x >= 0 {
        x
    } else {
        -x
    };
    let az = if z >= 0 {
        z
    } else {
        -z
    };
    if ax == 0 && az == 0 {
        0
    } else {
        let base = if az <= ax {
            atan_frac_spec((1000 * az) / ax)
        } else {
            HALF_PI_MRAD - atan_frac_spec((1000 * ax) / az)
        };
        let half = if x >= 0 {
            base
        } else {
            PI_MRAD - base
        };
        if z >= 0 {
            half
        } else {
            -half
        }
    }
}

/// The planar angle of a vector, in milliradians.
pub fn atan2_mrad(z: i64, x: i64) -> (r: i64)
    requires
        -4_000_000 <= z <= 4_000_000,
        -4_000_000 <= x <= 4_000_000,
    ensures
        r == atan2_mrad_spec(z as int, x as int),
        -PI_MRAD <= r <= PI_MRAD,
{
    let ax: i64 = if x >= 0 {
        x
    } else {
        -x
    };
    let az: i64 = if z >= 0 {
        z
    } else {
        -z
    };
    if ax == 0 && az == 0 {
        return 0;
    }
    let base: i64;
    if az <= ax {
        proof {
            assert(0 <= 1000 * az <= 4_000_000_000) by (nonlinear_arith)
                requires
                    0 <= az <= 4_000_000,
                ;
            vstd::arithmetic::div_mod::lemma_div_pos_is_pos(1000 * az, ax as int);
            lemma_ratio_at_most_1000(az as int, ax as int);
        }
        let q: i64 = (((1000 * az) as u64) / (ax as u64)) as i64;
        base = atan_frac(q);
    } else {
        proof {
            assert(0 <= 1000 * ax <= 4_000_000_000) by (nonlinear_arith)
                requires
                    0 <= ax <= 4_000_000,
                ;
            vstd::arithmetic::div_mod::lemma_div_pos_is_pos(1000 * ax, az as int);
            lemma_ratio_at_most_1000(ax as int, az as int);
        }
        let q: i64 = (((1000 * ax) as u64) / (az as u64)) as i64;
        base = HALF_PI_MRAD - atan_frac(q);
    }
    let half: i64 = if x >= 0 {
        base
    } else {
        PI_MRAD - base
    };
    if z >= 0 {
        half
    } else {
        -half
    }
}

/// A ratio of a numerator no larger than the denominator stays within the
/// unit scale.
proof fn lemma_ratio_at_most_1000(n: int, d: int)
    requires
        0 <= n <= d,
        d > 0,
    ensures
        0 <= (1000 * n) / d <= 1000,
{
    vstd::arithmetic::div_mod::lemma_div_pos_is_pos(1000 * n, d);
    assert(1000 * n <= 1000 * d) by (nonlinear_arith)
        requires
            n <= d,
        ;
    vstd::arithmetic::div_mod::lemma_div_is_ordered(1000 * n, 1000 * d, d);
    vstd::arithmetic::div_mod::lemma_div_by_multiple(1000, d);
}

} // verus!
