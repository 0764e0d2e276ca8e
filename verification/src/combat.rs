//! Hit-scan geometry: intersecting a shot ray with the upright cylinders
//! that stand for rewound actor bodies, and picking the closest candidate.
//!
//! The ray parameter `t` is the distance along the direction in millimetres
//! (the direction is a unit vector scaled by 1000, so the point at `t` is
//! `origin + dir * t / 1000`).

use vstd::prelude::*;
use crate::math::Vec3i;
use crate::math::in_world;
use crate::math::is_milli_dir;
use crate::math::sqrt_floor;
use crate::math::isqrt128;
use crate::math::lemma_sqrt_floor_is;

verus! {

/// Vertical slack of the cylinder slab test, in millimetres.
pub const SLAB_SLACK_MM: i64 = 50;

/// The candidate ray parameter for a quadratic-root numerator `num` over
/// the leading coefficient `a`.
pub open spec fn cyl_cand_t(num: int, a: int) -> int {
    (1000 * num) / (2 * a)
}

/// Whether the ray point at parameter `t` lies within the cylinder's
/// vertical slab (with slack).
pub open spec fn slab_ok(o: Vec3i, d: Vec3i, c: Vec3i, half_h: int, t: int) -> bool {
    let y1000 = 1000 * o.y + d.y * t;
    1000 * (c.y - half_h - SLAB_SLACK_MM) <= y1000 <= 1000 * (c.y + half_h + SLAB_SLACK_MM)
}

/// Whether the root with numerator `num` yields an acceptable hit: a
/// nonnegative parameter within range whose point lies in the slab.
pub open spec fn cyl_cand_ok(o: Vec3i, d: Vec3i, range: int, c: Vec3i, half_h: int, num: int, a: int) -> bool {
    num >= 0 && cyl_cand_t(num, a) <= range && slab_ok(o, d, c, half_h, cyl_cand_t(num, a))
}

/// The hit parameter of the ray against the upright cylinder at `c`, or
/// `None`: the earlier of the two quadratic roots that is nonnegative, in
/// range and inside the vertical slab.
pub open spec fn ray_cyl_spec(o: Vec3i, d: Vec3i, range: int, c: Vec3i, half_h: int, radius: int) -> Option<int> {
    let a = d.x * d.x + d.z * d.z;
    if a == 0 {
        None
    } else {
        let ox = o.x - c.x;
        let oz = o.z - c.z;
        let b = 2 * (d.x * ox + d.z * oz);
        let cc = ox * ox + oz * oz - radius * radius;
        let disc = b * b - 4 * a * cc;
        if disc < 0 {
            None
        } else {
            let s = sqrt_floor(disc);
            if cyl_cand_ok(o, d, range, c, half_h, -b - s, a) {
                Some(cyl_cand_t(-b - s, a))
            } else if cyl_cand_ok(o, d, range, c, half_h, -b + s, a) {
                Some(cyl_cand_t(-b + s, a))
            } else {
                None
            }
        }
    }
}

/// Tests one quadratic root: in range and in the slab.
fn cyl_try_cand(o: Vec3i, d: Vec3i, range: i64, c: Vec3i, half_h: i64, num: i128, a: i64) -> (r:
    Option<i64>)
    requires
        in_world(o),
        is_milli_dir(d),
        in_world(c),
        0 < range <= 1_000_000,
        0 < half_h <= 100_000,
        0 < a <= 8_000_000,
        -100_000_000_000 <= num <= 100_000_000_000,
    ensures
        r matches Some(t) ==> cyl_cand_ok(o, d, range as int, c, half_h as int, num as int, a as int)
            && t == cyl_cand_t(num as int, a as int) && 0 <= t <= range,
        r is None ==> !cyl_cand_ok(o, d, range as int, c, half_h as int, num as int, a as int),
{
    if num < 0 {
        return None;
    }
    let tq: u128 = (1000 * num as u128) / (2 * (a as u128));
    proof {
        vstd::arithmetic::div_mod::lemma_div_pos_is_pos(1000 * num as int, 2 * a as int);
        vstd::arithmetic::div_mod::lemma_div_is_ordered(
            1000 * num as int,
            100_000_000_000_000int,
            2 * a as int,
        );
        vstd::arithmetic::div_mod::lemma_div_is_ordered_by_denominator(
            100_000_000_000_000int,
            2,
            2 * a as int,
        );
    }
    if tq > range as u128 {
        return None;
    }
    let t: i64 = tq as i64;
    assert(-2_000_000_000 <= d.y * t <= 2_000_000_000) by (nonlinear_arith)
        requires
            -2000 <= d.y <= 2000,
            0 <= t <= 1_000_000,
        ;
    let y1000: i64 = 1000 * o.y + d.y * t;
    if 1000 * (c.y - half_h - SLAB_SLACK_MM) <= y1000 && y1000 <= 1000 * (c.y + half_h
        + SLAB_SLACK_MM) {
        Some(t)
    } else {
        None
    }
}

/// Intersects a shot ray with the upright cylinder (axis parallel to y)
/// centred at `c` with the given half height and radius: the smallest
/// acceptable nonnegative hit parameter, in millimetres along the ray.
pub fn ray_cylinder_hit(o: Vec3i, d: Vec3i, range: i64, c: Vec3i, half_h: i64, radius: i64) -> (r:
    Option<i64>)
    requires
        in_world(o),
        is_milli_dir(d),
        in_world(c),
        0 < range <= 1_000_000,
        0 < half_h <= 100_000,
        0 < radius <= 100_000,
    ensures
        r matches Some(t) ==> ray_cyl_spec(o, d, range as int, c, half_h as int, radius as int)
            == Some(t as int) && 0 <= t <= range,
        r is None ==> ray_cyl_spec(o, d, range as int, c, half_h as int, radius as int) is None,
{
    proof {
        assert(0 <= d.x * d.x <= 4_000_000 && 0 <= d.z * d.z <= 4_000_000) by (nonlinear_arith)
            requires
                -2000 <= d.x <= 2000,
                -2000 <= d.z <= 2000,
            ;
    }
    let a: i64 = d.x * d.x + d.z * d.z;
    if a == 0 {
        return None;
    }
    let ox: i64 = o.x - c.x;
    let oz: i64 = o.z - c.z;
    proof {
        assert(-4_000_000_000 <= d.x * ox <= 4_000_000_000 && -4_000_000_000 <= d.z * oz
            <= 4_000_000_000) by (nonlinear_arith)
            requires
                -2000 <= d.x <= 2000 && -2000 <= d.z <= 2000,
                -2_000_000 <= ox <= 2_000_000 && -2_000_000 <= oz <= 2_000_000,
            ;
        assert(0 <= ox * ox <= 4_000_000_000_000 && 0 <= oz * oz <= 4_000_000_000_000 && 0 <= radius
            * radius <= 10_000_000_000) by (nonlinear_arith)
            requires
                -2_000_000 <= ox <= 2_000_000 && -2_000_000 <= oz <= 2_000_000,
                0 < radius <= 100_000,
            ;
    }
    let b: i64 = 2 * (d.x * ox + d.z * oz);
    let cc: i64 = ox * ox + oz * oz - radius * radius;
    proof {
        assert((b as i128) * (b as i128) <= 300_000_000_000_000_000_000 && 0 <= (b as i128) * (
        b as i128) && -4 * ((a as i128) * (cc as i128)) <= 300_000_000_000_000_000_000 && -4 * ((
        a as i128) * (cc as i128)) >= -300_000_000_000_000_000_000 && 4 * ((a as i128) * (
        cc as i128)) == 4 * (a as i128) * (cc as i128)) by (nonlinear_arith)
            requires
                -16_000_000_000 <= b <= 16_000_000_000,
                0 < a <= 8_000_000,
                -8_100_000_000_000 <= cc <= 8_100_000_000_000,
            ;
    }
    let disc: i128 = (b as i128) * (b as i128) - 4 * (a as i128) * (cc as i128);
    if disc < 0 {
        return None;
    }
    let s128: u128 = isqrt128(disc as u128);
    proof {
        assert(s128 * s128 <= disc as u128);
        assert(s128 <= 30_000_000_000) by (nonlinear_arith)
            requires
                s128 * s128 <= 600_000_000_000_000_000_000u128 + 1,
            ;
        lemma_sqrt_floor_is(disc as int, s128 as int);
    }
    let s: i128 = s128 as i128;
    if let Some(t) = cyl_try_cand(o, d, range, c, half_h, -(b as i128) - s, a) {
        return Some(t);
    }
    if let Some(t) = cyl_try_cand(o, d, range, c, half_h, -(b as i128) + s, a) {
        return Some(t);
    }
    None
}

/// One rewound target the shot is tested against.
#[derive(Clone, Copy, PartialEq, Eq, Structural, Debug)]
pub struct HitCandidate {
    pub id: u64,
    pub center: Vec3i,
}

/// The provisional hit among the candidates: the one whose cylinder the ray
/// meets at the smallest parameter.
pub fn best_candidate(cands: &Vec<HitCandidate>, o: Vec3i, d: Vec3i, range: i64, half_h: i64, radius: i64) -> (r: Option<(u64, i64)>)
    requires
        in_world(o),
        is_milli_dir(d),
        0 < range <= 1_000_000,
        0 < half_h <= 100_000,
        0 < radius <= 100_000,
        forall|k: int| 0 <= k < cands@.len() ==> in_world((#[trigger] cands@[k]).center),
    ensures
        r is None ==> forall|k: int|
            0 <= k < cands@.len() ==> ray_cyl_spec(
                o,
                d,
                range as int,
                (#[trigger] cands@[k]).center,
                half_h as int,
                radius as int,
            ) is None,
        r matches Some((id, t)) ==> {
            &&& 0 <= t <= range
            &&& exists|k: int|
                0 <= k < cands@.len() && (#[trigger] cands@[k]).id == id && ray_cyl_spec(
                    o,
                    d,
                    range as int,
                    cands@[k].center,
                    half_h as int,
                    radius as int,
                ) == Some(t as int)
            &&& forall|k: int|
                0 <= k < cands@.len() ==> ((#[trigger] ray_cyl_spec(
                    o,
                    d,
                    range as int,
                    cands@[k].center,
                    half_h as int,
                    radius as int,
                )) matches Some(t2) ==> t2 >= t)
        },
{
    let mut best: Option<(u64, i64)> = None;
    let mut k: usize = 0;
    while k < cands.len()
        invariant
            in_world(o),
            is_milli_dir(d),
            0 < range <= 1_000_000,
            0 < half_h <= 100_000,
            0 < radius <= 100_000,
            forall|m: int| 0 <= m < cands@.len() ==> in_world((#[trigger] cands@[m]).center),
            0 <= k <= cands@.len(),
            best is None ==> forall|m: int|
                0 <= m < k ==> ray_cyl_spec(
                    o,
                    d,
                    range as int,
                    (#[trigger] cands@[m]).center,
                    half_h as int,
                    radius as int,
                ) is None,
            best matches Some((id, t)) ==> {
                &&& 0 <= t <= range
                &&& exists|m: int|
                    0 <= m < k && (#[trigger] cands@[m]).id == id && ray_cyl_spec(
                        o,
                        d,
                        range as int,
                        cands@[m].center,
                        half_h as int,
                        radius as int,
                    ) == Some(t as int)
                &&& forall|m: int|
                    0 <= m < k ==> ((#[trigger] ray_cyl_spec(
                        o,
                        d,
                        range as int,
                        cands@[m].center,
                        half_h as int,
                        radius as int,
                    )) matches Some(t2) ==> t2 >= t)
            },
        decreases cands@.len() - k,
    {
        let cand = cands[k];
        if let Some(t) = ray_cylinder_hit(o, d, range, cand.center, half_h, radius) {
            match best {
                Some((_bid, bt)) => {
                    if t < bt {
                        best = Some((cand.id, t));
                    }
                },
                None => {
                    best = Some((cand.id, t));
                },
            }
        }
        k = k + 1;
    }
    best
}

} // verus!
