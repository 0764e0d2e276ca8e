//! The scaffold lifecycle: player-placed temporary geometry with a minimum
//! clearance from its owner, a per-owner FIFO capacity that evicts the
//! oldest piece, and timed expiry.

use vstd::prelude::*;
use crate::math::Vec3i;
use crate::math::in_world;
use crate::math::sqrt_floor;
use crate::math::isqrt64;
use crate::motion::sdivq;
use crate::motion::sdivq_exec;
use crate::types::EventMsg;
use crate::world::World;
use crate::world::Scaffold;
use crate::world::owner_count;
use crate::world::ScaffoldRequest;

verus! {

/// Counting is pointwise: pushing adds one for the owner and nobody else.
pub proof fn lemma_owner_count_push(s: Seq<Scaffold>, sc: Scaffold, o: u64)
    ensures
        owner_count(s.push(sc), o) == owner_count(s, o) + if sc.owner == o {
            1int
        } else {
            0int
        },
{
    assert(s.push(sc).drop_last() =~= s);
    assert(s.push(sc).last() == sc);
}

/// Counting is pointwise: removing takes one from the owner and nobody else.
pub proof fn lemma_owner_count_remove(s: Seq<Scaffold>, i: int, o: u64)
    requires
        0 <= i < s.len(),
    ensures
        owner_count(s.remove(i), o) == owner_count(s, o) - if s[i].owner == o {
            1int
        } else {
            0int
        },
    decreases s.len(),
{
    if i == s.len() - 1 {
        assert(s.remove(i) =~= s.drop_last());
    } else {
        let t = s.drop_last();
        lemma_owner_count_remove(t, i, o);
        assert(s.remove(i).drop_last() =~= t.remove(i));
        assert(s.remove(i).last() == s.last());
        assert(owner_count(s.remove(i), o) == owner_count(t.remove(i), o) + if s.last().owner == o {
            1int
        } else {
            0int
        });
    }
}

/// A count is never negative.
pub proof fn lemma_owner_count_nonneg(s: Seq<Scaffold>, o: u64)
    ensures
        owner_count(s, o) >= 0,
    decreases s.len(),
{
    if s.len() > 0 {
        lemma_owner_count_nonneg(s.drop_last(), o);
    }
}

/// A positive count means some index belongs to the owner; the first such
/// index is the oldest piece.
pub proof fn lemma_owner_count_witness(s: Seq<Scaffold>, o: u64)
    requires
        owner_count(s, o) > 0,
    ensures
        exists|i: int| 0 <= i < s.len() && (#[trigger] s[i]).owner == o,
    decreases s.len(),
{
    if s.len() > 0 {
        if s.last().owner == o {
            assert(s[s.len() - 1].owner == o);
        } else {
            lemma_owner_count_witness(s.drop_last(), o);
            let i = choose|i: int|
                0 <= i < s.drop_last().len() && (#[trigger] s.drop_last()[i]).owner == o;
            assert(s[i].owner == o);
        }
    }
}

/// The placement position adjusted away from the owner: if the requested
/// point would overlap the owner's capsule (closer on the plane than the
/// minimum clearance), it is pushed outward along the separating axis to
/// exactly the clearance; a degenerate zero offset pushes along positive x.
pub open spec fn adjusted_place_spec(place: Vec3i, ply: Vec3i, min_dist: int) -> Vec3i {
    let dx = place.x - ply.x;
    let dz = place.z - ply.z;
    let d2 = dx * dx + dz * dz;
    if d2 >= min_dist * min_dist {
        place
    } else if d2 == 0 {
        Vec3i { x: (ply.x + min_dist) as i64, y: place.y, z: ply.z }
    } else {
        let l = sqrt_floor(d2);
        Vec3i {
            x: (ply.x + sdivq(dx * min_dist, l)) as i64,
            y: place.y,
            z: (ply.z + sdivq(dz * min_dist, l)) as i64,
        }
    }
}

/// Adjusts a requested placement for the owner's clearance.
pub fn adjusted_place(place: Vec3i, ply: Vec3i, min_dist: i64) -> (r: Vec3i)
    requires
        in_world(place),
        in_world(ply),
        0 < min_dist <= 400_000,
    ensures
        r == adjusted_place_spec(place, ply, min_dist as int),
        -2_000_000 <= r.x <= 2_000_000,
        r.y == place.y,
        -2_000_000 <= r.z <= 2_000_000,
{
    let dx = place.x - ply.x;
    let dz = place.z - ply.z;
    proof {
        assert(0 <= dx * dx <= 4_000_000_000_000 && 0 <= dz * dz <= 4_000_000_000_000 && 0
            <= min_dist * min_dist <= 160_000_000_000) by (nonlinear_arith)
            requires
                -2_000_000 <= dx <= 2_000_000 && -2_000_000 <= dz <= 2_000_000,
                0 < min_dist <= 400_000,
            ;
    }
    let d2: i64 = dx * dx + dz * dz;
    if d2 >= min_dist * min_dist {
        return place;
    }
    if d2 == 0 {
        return Vec3i { x: ply.x + min_dist, y: place.y, z: ply.z };
    }
    let lw = isqrt64(d2 as u64);
    proof {
        if lw == 0 {
            assert((lw + 1) * (lw + 1) == 1) by (nonlinear_arith)
                requires
                    lw == 0u64,
                ;
            assert(false);
        }
        assert(lw <= 3_000_000) by (nonlinear_arith)
            requires
                lw * lw <= 8_000_000_000_000u64,
            ;
    }
    let l: i64 = lw as i64;
    proof {
        assert(dx * dx <= d2 && dz * dz <= d2) by (nonlinear_arith)
            requires
                d2 == dx * dx + dz * dz,
            ;
        assert(dx <= l && -dx <= l && dz <= l && -dz <= l) by (nonlinear_arith)
            requires
                dx * dx <= d2 && dz * dz <= d2,
                l >= 0,
                d2 < (l + 1) * (l + 1),
            ;
        assert(-800_000_000_000 <= dx * min_dist <= 800_000_000_000 && -800_000_000_000 <= dz
            * min_dist <= 800_000_000_000) by (nonlinear_arith)
            requires
                -2_000_000 <= dx <= 2_000_000 && -2_000_000 <= dz <= 2_000_000,
                0 < min_dist <= 400_000,
            ;
        lemma_push_bounded(dx as int, l as int, min_dist as int);
        lemma_push_bounded(dz as int, l as int, min_dist as int);
    }
    let ox = sdivq_exec(dx * min_dist, l);
    let oz = sdivq_exec(dz * min_dist, l);
    Vec3i { x: ply.x + ox, y: place.y, z: ply.z + oz }
}

/// The outward push stays within the clearance.
pub proof fn lemma_push_bounded(v: int, l: int, m: int)
    requires
        l >= 1,
        -l <= v <= l,
        0 < m,
    ensures
        -m <= sdivq(v * m, l) <= m,
{
    if v >= 0 {
        assert(v * m >= 0) by (nonlinear_arith)
            requires
                v >= 0,
                m > 0,
            ;
        vstd::arithmetic::div_mod::lemma_div_pos_is_pos(v * m, l);
        assert(v * m <= l * m) by (nonlinear_arith)
            requires
                v <= l,
                m > 0,
            ;
        vstd::arithmetic::div_mod::lemma_div_is_ordered(v * m, l * m, l);
        assert(l * m == m * l) by (nonlinear_arith);
        vstd::arithmetic::div_mod::lemma_div_by_multiple(m, l);
        assert(v * m >= 0) by (nonlinear_arith)
            requires
                v >= 0,
                m > 0,
            ;
    } else {
        assert(v * m < 0 && -(v * m) == (-v) * m && (-v) * m >= 0) by (nonlinear_arith)
            requires
                v < 0,
                m > 0,
            ;
        vstd::arithmetic::div_mod::lemma_div_pos_is_pos((-v) * m, l);
        assert((-v) * m <= l * m) by (nonlinear_arith)
            requires
                -v <= l,
                m > 0,
            ;
        vstd::arithmetic::div_mod::lemma_div_is_ordered((-v) * m, l * m, l);
        assert(l * m == m * l) by (nonlinear_arith);
        vstd::arithmetic::div_mod::lemma_div_by_multiple(m, l);
        assert((-v) * m >= 0) by (nonlinear_arith)
            requires
                v < 0,
                m > 0,
            ;
    }
}

/// Removing one scaffold keeps the table's ordering, bounds and per-owner
/// counts.
proof fn lemma_scaffolds_remove_wf(olds: Seq<Scaffold>, news: Seq<Scaffold>, j: int, limit: int, next: u64)
    requires
        0 <= j < olds.len(),
        news == olds.remove(j),
        forall|a: int, b: int|
            0 <= a < b < olds.len() ==> (#[trigger] olds[a]).sid < (#[trigger] olds[b]).sid,
        forall|k: int| 0 <= k < olds.len() ==> (#[trigger] olds[k]).sid < next,
        forall|k: int| 0 <= k < olds.len() ==> in_world((#[trigger] olds[k]).pos),
        forall|o: u64| #[trigger] owner_count(olds, o) <= limit,
    ensures
        forall|a: int, b: int|
            0 <= a < b < news.len() ==> (#[trigger] news[a]).sid < (#[trigger] news[b]).sid,
        forall|k: int| 0 <= k < news.len() ==> (#[trigger] news[k]).sid < next,
        forall|k: int| 0 <= k < news.len() ==> in_world((#[trigger] news[k]).pos),
        forall|o: u64| #[trigger] owner_count(news, o) <= limit,
        owner_count(news, olds[j].owner) == owner_count(olds, olds[j].owner) - 1,
{
    assert forall|a: int, b: int|
        0 <= a < b < news.len() implies (#[trigger] news[a]).sid < (#[trigger] news[b]).sid by {
        if a < j {
            assert(news[a] == olds[a]);
        } else {
            assert(news[a] == olds[a + 1]);
        }
        if b < j {
            assert(news[b] == olds[b]);
        } else {
            assert(news[b] == olds[b + 1]);
        }
    }
    assert forall|k: int| 0 <= k < news.len() implies (#[trigger] news[k]).sid < next && in_world(
        news[k].pos,
    ) by {
        if k < j {
            assert(news[k] == olds[k]);
        } else {
            assert(news[k] == olds[k + 1]);
        }
    }
    assert forall|o: u64| #[trigger] owner_count(news, o) <= limit by {
        lemma_owner_count_remove(olds, j, o);
        lemma_owner_count_nonneg(news, o);
    }
    lemma_owner_count_remove(olds, j, olds[j].owner);
}

/// The registered position of a placement: the request pushed out of the
/// owner's clearance and clamped into the world box.
pub open spec fn placed_pos_spec(w: World, owner: u64, place: Vec3i) -> Vec3i {
    let ply = w.actors@[w.actor_ix(owner)].pos;
    let min_dist = w.cfg.player_radius_mm + w.cfg.scaffold_half_extent_mm
        + w.cfg.scaffold_clear_margin_mm;
    let adj = adjusted_place_spec(place, ply, min_dist as int);
    Vec3i {
        x: crate::world::clamp_world_spec(adj.x as int) as i64,
        y: crate::world::clamp_world_spec(adj.y as int) as i64,
        z: crate::world::clamp_world_spec(adj.z as int) as i64,
    }
}

impl World {
    /// Removes the owner's oldest scaffold, if any.
    #[verifier::rlimit(100)]
    #[verifier::spinoff_prover]
    fn evict_oldest(&mut self, owner: u64) -> (r: Option<u64>)
        requires
            old(self).wf(),
        ensures
            final (self).wf(),
            *final (self) == (World { scaffolds: final (self).scaffolds, ..*old(self) }),
            owner_count(old(self).scaffolds@, owner) == 0 ==> *final (self) == *old(self) && r
                is None,
            owner_count(old(self).scaffolds@, owner) > 0 ==> {
                let j = first_owned(old(self).scaffolds@, owner);
                &&& 0 <= j < old(self).scaffolds@.len()
                &&& old(self).scaffolds@[j].owner == owner
                &&& final (self).scaffolds@ == old(self).scaffolds@.remove(j)
                &&& r == Some(old(self).scaffolds@[j].sid)
                &&& owner_count(final (self).scaffolds@, owner) == owner_count(
                    old(self).scaffolds@,
                    owner,
                ) - 1
            },
    {
        proof {
            lemma_owner_count_nonneg(self.scaffolds@, owner);
            if owner_count(self.scaffolds@, owner) > 0 {
                lemma_owner_count_witness(self.scaffolds@, owner);
            }
        }
        let jopt = self.first_owned_exec(owner);
        if jopt.is_none() {
            proof {
                if owner_count(self.scaffolds@, owner) > 0 {
                    let w = choose|i: int|
                        0 <= i < self.scaffolds@.len() && (#[trigger] self.scaffolds@[i]).owner
                            == owner;
                    assert(self.scaffolds@[w].owner != owner);
                }
            }
            return None;
        }
        let j = jopt.unwrap();
        let sid = self.scaffolds[j].sid;
        let ghost olds = self.scaffolds@;
        self.scaffolds.remove(j);
        proof {
            lemma_scaffolds_remove_wf(
                olds,
                self.scaffolds@,
                j as int,
                self.cfg.scaffold_limit as int,
                self.next_scaffold_id,
            );
            assert(owner_count(olds, owner) > 0) by {
                lemma_owner_count_remove(olds, j as int, owner);
                lemma_owner_count_nonneg(self.scaffolds@, owner);
            }
        }
        Some(sid)
    }

    /// Appends a fresh scaffold for the owner.
    fn append_scaffold(&mut self, owner: u64, pos: Vec3i) -> (sid: u64)
        requires
            old(self).wf(),
            in_world(pos),
            owner_count(old(self).scaffolds@, owner) < old(self).cfg.scaffold_limit,
            old(self).next_scaffold_id < 0xffff_ffff_ffff_ffff,
        ensures
            final (self).wf(),
            *final (self) == (World {
                scaffolds: final (self).scaffolds,
                next_scaffold_id: final (self).next_scaffold_id,
                ..*old(self)
            }),
            sid == old(self).next_scaffold_id,
            final (self).next_scaffold_id == old(self).next_scaffold_id + 1,
            final (self).scaffolds@ == old(self).scaffolds@.push(
                Scaffold { sid, owner, pos, life_ms: old(self).cfg.scaffold_life_ms },
            ),
            owner_count(final (self).scaffolds@, owner) == owner_count(
                old(self).scaffolds@,
                owner,
            ) + 1,
            forall|k: int|
                0 <= k < old(self).scaffolds@.len() ==> (#[trigger] old(self).scaffolds@[k]).sid
                    != sid,
    {
        let sid = self.next_scaffold_id;
        self.next_scaffold_id = self.next_scaffold_id + 1;
        let sc = Scaffold { sid, owner, pos, life_ms: self.cfg.scaffold_life_ms };
        let ghost olds = self.scaffolds@;
        self.scaffolds.push(sc);
        proof {
            assert forall|o: u64| #[trigger] owner_count(self.scaffolds@, o)
                <= self.cfg.scaffold_limit by {
                lemma_owner_count_push(olds, sc, o);
                lemma_owner_count_nonneg(olds, o);
            }
            lemma_owner_count_push(olds, sc, owner);
            assert forall|a: int, b: int|
                0 <= a < b < self.scaffolds@.len() implies (#[trigger] self.scaffolds@[a]).sid < (
            #[trigger] self.scaffolds@[b]).sid by {
                assert(self.scaffolds@[a] == olds[a]);
                if b < self.scaffolds@.len() - 1 {
                    assert(self.scaffolds@[b] == olds[b]);
                }
            }
            assert forall|k: int| 0 <= k < self.scaffolds@.len() implies (
            #[trigger] self.scaffolds@[k]).sid < self.next_scaffold_id && in_world(
                self.scaffolds@[k].pos,
            ) by {
                if k < self.scaffolds@.len() - 1 {
                    assert(self.scaffolds@[k] == olds[k]);
                }
            }
        }
        sid
    }

    /// Places one scaffold for `owner`: the position is pushed out of the
    /// owner's clearance, the oldest piece is evicted if the owner already
    /// holds the configured limit, and the new piece is registered with its
    /// full lifetime. The owner never exceeds the limit, and filling past it
    /// despawns exactly the oldest owned piece.
    #[verifier::rlimit(100)]
    #[verifier::spinoff_prover]
    pub fn place_scaffold(&mut self, owner: u64, place: Vec3i) -> (ev: Vec<EventMsg>)
        requires
            old(self).wf(),
            in_world(place),
        ensures
            final (self).wf(),
            *final (self) == (World {
                scaffolds: final (self).scaffolds,
                next_scaffold_id: final (self).next_scaffold_id,
                ..*old(self)
            }),
            !(old(self).has_actor(owner) && old(self).next_scaffold_id < 0xffff_ffff_ffff_ffff)
                ==> *final (self) == *old(self) && ev@.len() == 0,
            (old(self).has_actor(owner) && old(self).next_scaffold_id < 0xffff_ffff_ffff_ffff)
                ==> {
                &&& owner_count(final (self).scaffolds@, owner) <= old(self).cfg.scaffold_limit
                &&& owner_count(old(self).scaffolds@, owner) < old(self).cfg.scaffold_limit
                    ==> owner_count(final (self).scaffolds@, owner) == owner_count(
                    old(self).scaffolds@,
                    owner,
                ) + 1 && ev@.len() == 1 && ev@[0] is ScaffoldSpawn
                &&& owner_count(old(self).scaffolds@, owner) >= old(self).cfg.scaffold_limit
                    ==> {
                    let oldest = first_owned(old(self).scaffolds@, owner);
                    &&& ev@.len() == 2
                    &&& ev@[0] == (EventMsg::ScaffoldDespawn {
                        sid: old(self).scaffolds@[oldest].sid,
                    })
                    &&& ev@[1] is ScaffoldSpawn
                    &&& owner_count(final (self).scaffolds@, owner) == owner_count(
                        old(self).scaffolds@,
                        owner,
                    )
                }
                &&& final (self).scaffolds@.len() >= 1
                &&& final (self).scaffolds@[final (self).scaffolds@.len() - 1].owner == owner
                &&& final (self).next_scaffold_id == old(self).next_scaffold_id + 1
                &&& {
                    let nsc = Scaffold {
                        sid: old(self).next_scaffold_id,
                        owner,
                        pos: placed_pos_spec(*old(self), owner, place),
                        life_ms: old(self).cfg.scaffold_life_ms,
                    };
                    &&& owner_count(old(self).scaffolds@, owner) < old(self).cfg.scaffold_limit
                        ==> final (self).scaffolds@ == old(self).scaffolds@.push(nsc) && ev@[0]
                        == (EventMsg::ScaffoldSpawn { sid: nsc.sid, owner, pos: nsc.pos })
                    &&& owner_count(old(self).scaffolds@, owner) >= old(self).cfg.scaffold_limit
                        ==> final (self).scaffolds@ == old(self).scaffolds@.remove(
                        first_owned(old(self).scaffolds@, owner),
                    ).push(nsc) && ev@[1] == (EventMsg::ScaffoldSpawn {
                        sid: nsc.sid,
                        owner,
                        pos: nsc.pos,
                    })
                }
            },
    {
        let iopt = self.find_actor(owner);
        if iopt.is_none() {
            return Vec::new();
        }
        if self.next_scaffold_id == 0xffff_ffff_ffff_ffff {
            // The id space is exhausted: the request is dropped.
            return Vec::new();
        }
        let i = iopt.unwrap();
        proof {
            old(self).lemma_actor_ix_is(owner, i as int);
        }
        let mut ev: Vec<EventMsg> = Vec::new();
        // Clearance from the owner's capsule.
        let ply = self.actors[i].pos;
        let min_dist = self.cfg.player_radius_mm + self.cfg.scaffold_half_extent_mm
            + self.cfg.scaffold_clear_margin_mm;
        let adjusted = adjusted_place(place, ply, min_dist);
        let pos = Vec3i {
            x: crate::world::clamp_world(adjusted.x),
            y: crate::world::clamp_world(adjusted.y),
            z: crate::world::clamp_world(adjusted.z),
        };
        proof {
            assert(pos == placed_pos_spec(*old(self), owner, place));
        }
        // Per-owner FIFO limit: evict the oldest owned piece if full.
        let count = self.count_owner(owner);
        if count >= self.cfg.scaffold_limit {
            proof {
                lemma_owner_count_nonneg(self.scaffolds@, owner);
            }
            let evicted = self.evict_oldest(owner);
            ev.push(EventMsg::ScaffoldDespawn { sid: evicted.unwrap() });
        }
        let sid = self.append_scaffold(owner, pos);
        ev.push(EventMsg::ScaffoldSpawn { sid, owner, pos });
        ev
    }

    /// How many scaffolds the owner holds.
    fn count_owner(&self, owner: u64) -> (r: usize)
        requires
            self.wf(),
        ensures
            r == owner_count(self.scaffolds@, owner),
    {
        let mut r: usize = 0;
        let n = self.scaffolds.len();
        let mut k: usize = 0;
        while k < n
            invariant
                self.wf(),
                n == self.scaffolds@.len(),
                0 <= k <= n,
                r <= k,
                r == owner_count(self.scaffolds@.subrange(0, k as int), owner),
            decreases n - k,
        {
            let ghost pre = self.scaffolds@.subrange(0, k as int);
            proof {
                assert(self.scaffolds@.subrange(0, k + 1 as int).drop_last() =~= pre);
                assert(self.scaffolds@.subrange(0, k + 1 as int).last() == self.scaffolds@[k as int]);
            }
            if self.scaffolds[k].owner == owner {
                r = r + 1;
            }
            k = k + 1;
        }
        proof {
            assert(self.scaffolds@.subrange(0, n as int) =~= self.scaffolds@);
        }
        r
    }

    /// The index of the owner's oldest scaffold.
    fn first_owned_exec(&self, owner: u64) -> (r: Option<usize>)
        ensures
            r matches Some(j) ==> j < self.scaffolds@.len() && self.scaffolds@[j as int].owner
                == owner && first_owned(self.scaffolds@, owner) == j as int,
            r is None ==> forall|k: int|
                0 <= k < self.scaffolds@.len() ==> (#[trigger] self.scaffolds@[k]).owner != owner,
    {
        let mut k: usize = 0;
        while k < self.scaffolds.len()
            invariant
                0 <= k <= self.scaffolds@.len(),
                forall|m: int| 0 <= m < k ==> (#[trigger] self.scaffolds@[m]).owner != owner,
            decreases self.scaffolds@.len() - k,
        {
            if self.scaffolds[k].owner == owner {
                proof {
                    lemma_first_owned_is(self.scaffolds@, owner, k as int);
                }
                return Some(k);
            }
            k = k + 1;
        }
        None
    }

    /// Resolves this tick's queued placement requests in arrival order: a
    /// request whose owner has an actor is placed (clearance push-out, the
    /// per-owner FIFO limit, and the notifications); one whose owner's
    /// state is not registered yet is kept queued for a later tick — a
    /// missing entry is transient desynchronization, healed by retrying,
    /// never fatal.
    pub fn process_scaffold_requests(&mut self) -> (ev: Vec<EventMsg>)
        requires
            old(self).wf(),
        ensures
            final (self).wf(),
            *final (self) == (World {
                scaffolds: final (self).scaffolds,
                next_scaffold_id: final (self).next_scaffold_id,
                pending_scaffolds: final (self).pending_scaffolds,
                ..*old(self)
            }),
            final (self).pending_scaffolds@ == unowned_requests(
                *old(self),
                old(self).pending_scaffolds@,
            ),
            forall|e: int|
                0 <= e < ev@.len() ==> ((#[trigger] ev@[e]) is ScaffoldSpawn || ev@[e]
                    is ScaffoldDespawn),
    {
        let reqs = self.drain_scaffold_requests();
        let mut ev: Vec<EventMsg> = Vec::new();
        let n = reqs.len();
        let mut k: usize = 0;
        while k < n
            invariant
                self.wf(),
                n == reqs@.len(),
                0 <= k <= n,
                *self == (World {
                    scaffolds: self.scaffolds,
                    next_scaffold_id: self.next_scaffold_id,
                    pending_scaffolds: self.pending_scaffolds,
                    ..*old(self)
                }),
                reqs@ == old(self).pending_scaffolds@,
                forall|q: int| 0 <= q < reqs@.len() ==> in_world((#[trigger] reqs@[q]).pos),
                self.pending_scaffolds@ == unowned_requests(
                    *old(self),
                    reqs@.subrange(0, k as int),
                ),
                forall|e: int|
                    0 <= e < ev@.len() ==> ((#[trigger] ev@[e]) is ScaffoldSpawn || ev@[e]
                        is ScaffoldDespawn),
            decreases n - k,
        {
            proof {
                assert(reqs@.subrange(0, k + 1 as int).drop_last() =~= reqs@.subrange(0, k as int));
                assert(reqs@.subrange(0, k + 1 as int).last() == reqs@[k as int]);
            }
            let r = reqs[k];
            let iopt = self.find_actor(r.owner);
            if iopt.is_some() {
                proof {
                    let i = iopt->Some_0;
                    assert(self.actors@[i as int].id == r.owner);
                    assert(old(self).actors@[i as int].id == r.owner);
                    assert(old(self).has_actor(r.owner));
                }
                let mut e = self.place_scaffold(r.owner, r.pos);
                ev.append(&mut e);
            } else {
                proof {
                    if old(self).has_actor(r.owner) {
                        let w = choose|w: int|
                            0 <= w < old(self).actors@.len() && (
                            #[trigger] old(self).actors@[w]).id == r.owner;
                        assert(self.actors@[w].id == r.owner);
                        assert(self.has_actor(r.owner));
                        assert(false);
                    }
                }
                self.pending_scaffolds.push(r);
            }
            k = k + 1;
        }
        proof {
            assert(reqs@.subrange(0, n as int) =~= reqs@);
        }
        ev
    }

    /// Counts every scaffold's life down by `dt`; exactly the pieces whose
    /// life ran out leave the table, each with its despawn notification,
    /// and every surviving piece is kept in order with its life reduced.
    #[verifier::loop_isolation(false)]
    pub fn scaffold_tick(&mut self, dt: u32) -> (ev: Vec<EventMsg>)
        requires
            old(self).wf(),
        ensures
            final (self).wf(),
            *final (self) == (World { scaffolds: final (self).scaffolds, ..*old(self) }),
            final (self).scaffolds@ == ticked_scaffolds(old(self).scaffolds@, dt),
            ev@ == expiry_events(old(self).scaffolds@, dt),
            forall|e: int|
                0 <= e < ev@.len() ==> (#[trigger] ev@[e]) matches EventMsg::ScaffoldDespawn {
                    ..
                },
            forall|k: int|
                0 <= k < final (self).scaffolds@.len() ==> (
                #[trigger] final (self).scaffolds@[k]).life_ms > 0,
    {
        let mut ev: Vec<EventMsg> = Vec::new();
        let mut out: Vec<Scaffold> = Vec::new();
        let n = self.scaffolds.len();
        let mut k: usize = 0;
        while k < n
            invariant
                *self == *old(self),
                n == self.scaffolds@.len(),
                0 <= k <= n,
                forall|e: int|
                    0 <= e < ev@.len() ==> (#[trigger] ev@[e]) matches EventMsg::ScaffoldDespawn {
                        ..
                    },
                forall|m: int| 0 <= m < out@.len() ==> (#[trigger] out@[m]).life_ms > 0,
                forall|m: int|
                    0 <= m < out@.len() ==> in_world((#[trigger] out@[m]).pos) && out@[m].sid
                        < self.next_scaffold_id,
                forall|a: int, b: int|
                    0 <= a < b < out@.len() ==> (#[trigger] out@[a]).sid < (
                    #[trigger] out@[b]).sid,
                out@.len() > 0 ==> k > 0 && out@.last().sid <= self.scaffolds@[k - 1].sid,
                forall|o: u64|
                    #[trigger] owner_count(out@, o) <= owner_count(
                        self.scaffolds@.subrange(0, k as int),
                        o,
                    ),
                out@.len() <= k,
                out@ == ticked_scaffolds(self.scaffolds@.subrange(0, k as int), dt),
                ev@ == expiry_events(self.scaffolds@.subrange(0, k as int), dt),
            decreases n - k,
        {
            let ghost preout = out@;
            let ghost prepre = self.scaffolds@.subrange(0, k as int);
            let mut sc = self.scaffolds[k];
            if sc.life_ms > dt {
                sc.life_ms = sc.life_ms - dt;
                let ghost lastout = out@;
                out.push(sc);
                proof {
                    if lastout.len() > 0 {
                        assert(lastout.last().sid <= self.scaffolds@[k - 1].sid);
                        assert(self.scaffolds@[k - 1].sid < self.scaffolds@[k as int].sid);
                    }
                    assert forall|a: int, b: int|
                        0 <= a < b < out@.len() implies (#[trigger] out@[a]).sid < (
                    #[trigger] out@[b]).sid by {
                        assert(out@[a] == lastout[a]);
                        if b < out@.len() - 1 {
                            assert(out@[b] == lastout[b]);
                        } else {
                            assert(out@[b] == sc);
                            assert(lastout[a].sid <= lastout.last().sid);
                        }
                    }
                }
            } else {
                ev.push(EventMsg::ScaffoldDespawn { sid: sc.sid });
            }
            proof {
                assert(self.scaffolds@.subrange(0, k + 1 as int).drop_last() =~= prepre);
                assert(self.scaffolds@.subrange(0, k + 1 as int).last()
                    == self.scaffolds@[k as int]);
                assert forall|o: u64| #[trigger] owner_count(out@, o) <= owner_count(
                    self.scaffolds@.subrange(0, k + 1 as int),
                    o,
                ) by {
                    if out@.len() > preout.len() {
                        lemma_owner_count_push(preout, out@.last(), o);
                    }
                    lemma_owner_count_nonneg(preout, o);
                }
            }
            k = k + 1;
        }
        proof {
            assert(self.scaffolds@.subrange(0, n as int) =~= self.scaffolds@);
        }
        self.scaffolds = out;
        ev
    }
}

/// The scaffold table after one tick: every piece's life falls by `dt`
/// (in order), and the pieces whose life ran out are gone.
pub open spec fn ticked_scaffolds(s: Seq<Scaffold>, dt: u32) -> Seq<Scaffold>
    decreases s.len(),
{
    if s.len() == 0 {
        Seq::empty()
    } else {
        let rest = ticked_scaffolds(s.drop_last(), dt);
        if s.last().life_ms > dt {
            rest.push(Scaffold { life_ms: (s.last().life_ms - dt) as u32, ..s.last() })
        } else {
            rest
        }
    }
}

/// The despawn notifications of one tick: one per expired piece, in table
/// order.
pub open spec fn expiry_events(s: Seq<Scaffold>, dt: u32) -> Seq<EventMsg>
    decreases s.len(),
{
    if s.len() == 0 {
        Seq::empty()
    } else {
        let rest = expiry_events(s.drop_last(), dt);
        if s.last().life_ms > dt {
            rest
        } else {
            rest.push(EventMsg::ScaffoldDespawn { sid: s.last().sid })
        }
    }
}

/// The requests kept for a later tick: those whose owner has no actor yet,
/// in arrival order.
pub open spec fn unowned_requests(w: World, reqs: Seq<ScaffoldRequest>) -> Seq<ScaffoldRequest>
    decreases reqs.len(),
{
    if reqs.len() == 0 {
        Seq::empty()
    } else {
        let rest = unowned_requests(w, reqs.drop_last());
        if w.has_actor(reqs.last().owner) {
            rest
        } else {
            rest.push(reqs.last())
        }
    }
}

/// The first index owned by `o` (meaningful when one exists).
pub open spec fn first_owned(s: Seq<Scaffold>, o: u64) -> int {
    choose|i: int|
        0 <= i < s.len() && (#[trigger] s[i]).owner == o && forall|m: int|
            0 <= m < i ==> (#[trigger] s[m]).owner != o
}

/// An index owned by `o` with no earlier owned index is `first_owned`.
proof fn lemma_first_owned_is(s: Seq<Scaffold>, o: u64, i: int)
    requires
        0 <= i < s.len(),
        s[i].owner == o,
        forall|m: int| 0 <= m < i ==> (#[trigger] s[m]).owner != o,
    ensures
        first_owned(s, o) == i,
{
    assert(0 <= i < s.len() && s[i].owner == o && forall|m: int|
        0 <= m < i ==> (#[trigger] s[m]).owner != o);
    let j = first_owned(s, o);
    if j != i {
        if j < i {
            assert(s[j].owner != o);
        } else {
            assert(s[i].owner != o);
        }
    }
}

} // verus!
