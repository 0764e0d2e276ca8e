//! Per-actor position history for lag compensation: a bounded time series of
//! past positions, sampled once per tick, pruned to a retention window, and
//! queried by deterministic linear interpolation.

use vstd::prelude::*;
use crate::math::Vec3i;
use crate::math::in_world;

verus! {

/// Largest simulation timestamp the core admits, in milliseconds.
pub const TIME_MAX_MS: i64 = 4_000_000_000_000;

/// One history entry: where an actor stood at a simulation time.
#[derive(Clone, Copy, PartialEq, Eq, Structural, Debug)]
pub struct PosSample {
    pub t_ms: i64,
    pub pos: Vec3i,
}

/// Samples are strictly increasing in time, with in-world positions and
/// in-range timestamps.
pub open spec fn hist_wf(h: Seq<PosSample>) -> bool {
    &&& forall|i: int, j: int|
        0 <= i < j < h.len() ==> #[trigger] h[i].t_ms < #[trigger] h[j].t_ms
    &&& forall|i: int| 0 <= i < h.len() ==> in_world(#[trigger] h[i].pos)
    &&& forall|i: int| 0 <= i < h.len() ==> 0 <= #[trigger] h[i].t_ms <= TIME_MAX_MS
}

/// One interpolated coordinate, rounded toward the earlier sample.
pub open spec fn lerp_coord(x0: int, x1: int, num: int, den: int) -> int {
    if x1 >= x0 {
        x0 + ((x1 - x0) * num) / den
    } else {
        x0 - ((x0 - x1) * num) / den
    }
}

/// The point on the segment from `a` to `b` at time `t`.
pub open spec fn lerp_spec(a: PosSample, b: PosSample, t: int) -> Vec3i {
    Vec3i {
        x: lerp_coord(a.pos.x as int, b.pos.x as int, t - a.t_ms, b.t_ms - a.t_ms) as i64,
        y: lerp_coord(a.pos.y as int, b.pos.y as int, t - a.t_ms, b.t_ms - a.t_ms) as i64,
        z: lerp_coord(a.pos.z as int, b.pos.z as int, t - a.t_ms, b.t_ms - a.t_ms) as i64,
    }
}

/// Walks from index `i` to the first sample at or after `t` and interpolates
/// against its predecessor.
pub open spec fn rewind_walk(h: Seq<PosSample>, t: int, i: int) -> Vec3i
    decreases h.len() - i,
{
    if i < 0 || i >= h.len() {
        Vec3i { x: 0, y: 0, z: 0 }
    } else if h[i].t_ms >= t {
        lerp_spec(h[i - 1], h[i], t)
    } else {
        rewind_walk(h, t, i + 1)
    }
}

/// The rewound position at time `t`: clamped to the ends of the retained
/// window, linearly interpolated between the bracketing samples inside it.
pub open spec fn rewind_spec(h: Seq<PosSample>, t: int) -> Option<Vec3i> {
    if h.len() == 0 {
        None
    } else if t <= h[0].t_ms {
        Some(h[0].pos)
    } else if t >= h[h.len() - 1].t_ms {
        Some(h[h.len() - 1].pos)
    } else {
        Some(rewind_walk(h, t, 1))
    }
}

/// One interpolated coordinate.
fn lerp_coord_exec(x0: i64, x1: i64, num: i64, den: i64) -> (r: i64)
    requires
        -1_000_000 <= x0 <= 1_000_000,
        -1_000_000 <= x1 <= 1_000_000,
        0 < num <= den <= TIME_MAX_MS,
    ensures
        r == lerp_coord(x0 as int, x1 as int, num as int, den as int),
        x0 <= x1 ==> x0 <= r <= x1,
        x1 < x0 ==> x1 <= r <= x0,
{
    let delta: u64 = if x1 >= x0 {
        (x1 - x0) as u64
    } else {
        (x0 - x1) as u64
    };
    assert(delta * num <= delta * den && delta * den <= 2_000_000 * (TIME_MAX_MS as int))
        by (nonlinear_arith)
        requires
            0 <= delta <= 2_000_000,
            0 < num <= den <= TIME_MAX_MS,
        ;
    let off_w: u64 = (delta * (num as u64)) / (den as u64);
    proof {
        vstd::arithmetic::div_mod::lemma_div_is_ordered(
            (delta * num) as int,
            (delta * den) as int,
            den as int,
        );
        vstd::arithmetic::div_mod::lemma_div_by_multiple(delta as int, den as int);
        assert(delta * den == den * delta) by (nonlinear_arith);
        vstd::arithmetic::div_mod::lemma_div_pos_is_pos((delta * num) as int, den as int);
    }
    let off: i64 = off_w as i64;
    if x1 >= x0 {
        x0 + off
    } else {
        x0 - off
    }
}

/// The interpolated point between two bracketing samples.
fn lerp_exec(a: PosSample, b: PosSample, t: i64) -> (r: Vec3i)
    requires
        in_world(a.pos),
        in_world(b.pos),
        0 <= a.t_ms,
        b.t_ms <= TIME_MAX_MS,
        a.t_ms < t <= b.t_ms,
    ensures
        r == lerp_spec(a, b, t as int),
        in_world(r),
{
    Vec3i {
        x: lerp_coord_exec(a.pos.x, b.pos.x, t - a.t_ms, b.t_ms - a.t_ms),
        y: lerp_coord_exec(a.pos.y, b.pos.y, t - a.t_ms, b.t_ms - a.t_ms),
        z: lerp_coord_exec(a.pos.z, b.pos.z, t - a.t_ms, b.t_ms - a.t_ms),
    }
}

/// Looks up an actor's rewound position at time `t`: the deterministic
/// linear interpolation between the two samples that straddle `t`, clamped
/// to the oldest and newest retained sample.
#[verifier::loop_isolation(false)]
pub fn rewind_pos(h: &Vec<PosSample>, t: i64) -> (r: Option<Vec3i>)
    requires
        hist_wf(h@),
    ensures
        r == rewind_spec(h@, t as int),
        r matches Some(p) ==> in_world(p),
{
    if h.len() == 0 {
        return None;
    }
    if t <= h[0].t_ms {
        return Some(h[0].pos);
    }
    if t >= h[h.len() - 1].t_ms {
        return Some(h[h.len() - 1].pos);
    }
    let n: usize = h.len();
    let mut i: usize = 1;
    while i < n
        invariant
            hist_wf(h@),
            n == h@.len(),
            1 <= i <= n,
            h@[0].t_ms < t < h@[h@.len() - 1].t_ms,
            h@[i - 1].t_ms < t,
            rewind_walk(h@, t as int, 1) == rewind_walk(h@, t as int, i as int),
        decreases n - i,
    {
        if h[i].t_ms >= t {
            return Some(lerp_exec(h[i - 1], h[i], t));
        }
        i = i + 1;
    }
    proof {
        assert(h@[n - 1].t_ms < t);
        assert(false);
    }
    None
}

/// Appending a strictly later in-range sample keeps the series well formed.
proof fn lemma_push_keeps_wf(h: Seq<PosSample>, s: PosSample)
    requires
        hist_wf(h),
        in_world(s.pos),
        0 <= s.t_ms <= TIME_MAX_MS,
        h.len() > 0 ==> h[h.len() - 1].t_ms < s.t_ms,
    ensures
        hist_wf(h.push(s)),
{
    let b = h.push(s);
    assert forall|i: int, j: int| 0 <= i < j < b.len() implies #[trigger] b[i].t_ms
        < #[trigger] b[j].t_ms by {
        assert(b[i] == h[i]);
        if j == b.len() - 1 {
            assert(b[j] == s);
            assert(h[i].t_ms <= h[h.len() - 1].t_ms);
        } else {
            assert(b[j] == h[j]);
        }
    }
    assert forall|i: int| 0 <= i < b.len() implies in_world(#[trigger] b[i].pos) by {
        if i < h.len() {
            assert(b[i] == h[i]);
            assert(in_world(h[i].pos));
        } else {
            assert(b[i] == s);
        }
    }
    assert forall|i: int| 0 <= i < b.len() implies 0 <= #[trigger] b[i].t_ms <= TIME_MAX_MS by {
        if i < h.len() {
            assert(b[i] == h[i]);
            assert(0 <= h[i].t_ms <= TIME_MAX_MS);
        } else {
            assert(b[i] == s);
        }
    }
}

/// Dropping a prefix keeps the series well formed.
proof fn lemma_subrange_keeps_wf(h: Seq<PosSample>, k: int)
    requires
        hist_wf(h),
        0 <= k <= h.len(),
    ensures
        hist_wf(h.subrange(k, h.len() as int)),
{
    let b = h.subrange(k, h.len() as int);
    assert forall|i: int, j: int| 0 <= i < j < b.len() implies #[trigger] b[i].t_ms
        < #[trigger] b[j].t_ms by {
        assert(b[i] == h[k + i] && b[j] == h[k + j]);
        assert(h[k + i].t_ms < h[k + j].t_ms);
    }
    assert forall|i: int| 0 <= i < b.len() implies in_world(#[trigger] b[i].pos) by {
        assert(b[i] == h[k + i]);
        assert(in_world(h[k + i].pos));
    }
    assert forall|i: int| 0 <= i < b.len() implies 0 <= #[trigger] b[i].t_ms <= TIME_MAX_MS by {
        assert(b[i] == h[k + i]);
        assert(0 <= h[k + i].t_ms <= TIME_MAX_MS);
    }
}

/// Appends this tick's sample and prunes samples older than the retention
/// window. The result is a suffix of the extended series: ordering is kept,
/// nothing is reordered or invented.
#[verifier::loop_isolation(false)]
pub fn push_sample(h: &mut Vec<PosSample>, now: i64, pos: Vec3i, hist_max_ms: i64)
    requires
        hist_wf(old(h)@),
        in_world(pos),
        0 <= now <= TIME_MAX_MS,
        0 <= hist_max_ms,
        old(h)@.len() > 0 ==> old(h)@[old(h)@.len() - 1].t_ms < now,
    ensures
        hist_wf(final (h)@),
        final (h)@.len() >= 1,
        final (h)@[final (h)@.len() - 1] == (PosSample { t_ms: now, pos: pos }),
        forall|i: int|
            0 <= i < final (h)@.len() ==> now - #[trigger] final (h)@[i].t_ms <= hist_max_ms,
        exists|k: int|
            0 <= k <= old(h)@.len() && final (h)@ =~= #[trigger] old(h)@.push(
                PosSample { t_ms: now, pos: pos },
            ).subrange(k, old(h)@.len() + 1 as int),
{
    let ghost base: Seq<PosSample> = old(h)@.push(PosSample { t_ms: now, pos: pos });
    proof {
        lemma_push_keeps_wf(old(h)@, PosSample { t_ms: now, pos: pos });
    }
    h.push(PosSample { t_ms: now, pos: pos });
    let ghost k: int = 0;
    assert(h@ =~= base.subrange(0, base.len() as int));
    while h.len() > 0 && now - h[0].t_ms > hist_max_ms
        invariant
            hist_wf(base),
            hist_wf(h@),
            base.len() >= 1,
            base[base.len() - 1] == (PosSample { t_ms: now, pos: pos }),
            0 <= k < base.len(),
            h@ =~= base.subrange(k, base.len() as int),
            0 <= hist_max_ms,
            h@.len() > 0 ==> 0 <= h@[0].t_ms <= TIME_MAX_MS,
        decreases h@.len(),
    {
        proof {
            assert(h@[0] == base[k]);
            assert(base[k].t_ms < now);
            if k == base.len() - 1 {
                assert(base[k].t_ms == now);
            }
        }
        h.remove(0);
        proof {
            k = k + 1;
            assert(h@ =~= base.subrange(k, base.len() as int));
            lemma_subrange_keeps_wf(base, k);
            assert(hist_wf(h@));
        }
    }
    proof {
        assert(h@[h@.len() - 1] == base[base.len() - 1]);
        assert forall|i: int| 0 <= i < h@.len() implies now - #[trigger] h@[i].t_ms
            <= hist_max_ms by {
            assert(h@[0].t_ms <= h@[i].t_ms);
        }
        assert(h@ =~= base.subrange(k, old(h)@.len() + 1 as int));
    }
}

/// Querying exactly at a stored sample's timestamp returns that sample's
/// position exactly.
pub proof fn lemma_rewind_at_sample(h: Seq<PosSample>, i: int)
    requires
        hist_wf(h),
        0 <= i < h.len(),
    ensures
        rewind_spec(h, h[i].t_ms as int) == Some(h[i].pos),
{
    let t = h[i].t_ms as int;
    if i == 0 || i == h.len() - 1 {
    } else {
        assert(h[0].t_ms < t < h[h.len() - 1].t_ms);
        lemma_walk_reaches(h, i, 1);
    }
}

/// The walk starting at `j` (everything before `j` strictly earlier than the
/// queried time) lands exactly on sample `i` when the query time is `h[i]`'s.
proof fn lemma_walk_reaches(h: Seq<PosSample>, i: int, j: int)
    requires
        hist_wf(h),
        0 < j <= i < h.len(),
        h[j - 1].t_ms < h[i].t_ms,
    ensures
        rewind_walk(h, h[i].t_ms as int, j) == h[i].pos,
    decreases i - j,
{
    let t = h[i].t_ms as int;
    if h[j].t_ms >= t {
        assert(j == i) by {
            if j < i {
                assert(h[j].t_ms < h[i].t_ms);
            }
        }
        lemma_lerp_at_right(h[i - 1], h[i]);
    } else {
        lemma_walk_reaches(h, i, j + 1);
    }
}

/// Interpolating exactly at the right endpoint's time gives its position.
proof fn lemma_lerp_at_right(a: PosSample, b: PosSample)
    requires
        a.t_ms < b.t_ms,
    ensures
        lerp_spec(a, b, b.t_ms as int) == b.pos,
{
    let den = b.t_ms - a.t_ms;
    lemma_full_step(a.pos.x as int, b.pos.x as int, den as int);
    lemma_full_step(a.pos.y as int, b.pos.y as int, den as int);
    lemma_full_step(a.pos.z as int, b.pos.z as int, den as int);
}

/// A full interpolation step lands on the far coordinate.
proof fn lemma_full_step(x0: int, x1: int, den: int)
    requires
        den > 0,
    ensures
        lerp_coord(x0, x1, den, den) == x1,
{
    if x1 >= x0 {
        vstd::arithmetic::div_mod::lemma_div_by_multiple(x1 - x0, den);
        assert((x1 - x0) * den == den * (x1 - x0)) by (nonlinear_arith);
    } else {
        vstd::arithmetic::div_mod::lemma_div_by_multiple(x0 - x1, den);
        assert((x0 - x1) * den == den * (x0 - x1)) by (nonlinear_arith);
    }
}

} // verus!
