//! Combat resolution: the weapon/protection timers, the fire gate with its
//! sequence-number deduplication, lag-compensated target selection, and the
//! occlusion-validated application of a shot.

use vstd::prelude::*;
use crate::actor::Actor;
use crate::history::rewind_spec;
use crate::history::rewind_pos;
use crate::combat::ray_cyl_spec;
use crate::combat::ray_cylinder_hit;
use crate::math::Vec3i;
use crate::math::in_world;
use crate::math::is_milli_dir;
use crate::types::EventMsg;
use crate::weapon::WeaponStatus;
use crate::world::World;

verus! {

/// The slice of an actor the fire gate reads and writes.
#[derive(Clone, Copy, PartialEq, Eq, Structural, Debug)]
pub struct GateView {
    pub alive: bool,
    pub last_fire_seq: u32,
    pub ammo: u16,
    pub cooldown_ms: u32,
    pub reload_ms: u32,
    pub protect_ms: u32,
}

/// What the fire gate decided for one intent.
#[derive(Clone, Copy, PartialEq, Eq, Structural, Debug)]
pub enum FireVerdict {
    /// The sequence number was already processed: nothing happens.
    Duplicate,
    /// Dead, protected, cooling down or reloading: nothing happens but the
    /// sequence number is recorded.
    NotReady,
    /// The magazine was empty: a reload starts instead of a shot.
    StartedReload,
    /// A round was consumed and the ray may be resolved.
    Shot,
}

/// The fire gate as a pure transition: given its slice of the actor and the intent's
/// sequence number (none for an explicit aimed request), the new slice and
/// the verdict. A repeated sequence number is never acted upon twice; a shot
/// consumes exactly one round and starts the cooldown; an empty magazine
/// starts a reload.
pub open spec fn gate_spec(g: GateView, seq: Option<u32>, reload_ms: u32, cooldown_ms: u32) -> (
    GateView,
    FireVerdict,
) {
    if !g.alive {
        (g, FireVerdict::NotReady)
    } else if seq matches Some(q) && q == g.last_fire_seq {
        (g, FireVerdict::Duplicate)
    } else {
        let g1 = GateView {
            last_fire_seq: match seq {
                Some(q) => q,
                None => g.last_fire_seq,
            },
            ..g
        };
        if g.reload_ms > 0 || g.cooldown_ms > 0 || g.protect_ms > 0 {
            (g1, FireVerdict::NotReady)
        } else if g.ammo == 0 {
            (GateView { reload_ms: reload_ms, ..g1 }, FireVerdict::StartedReload)
        } else {
            (
                GateView { ammo: (g.ammo - 1) as u16, cooldown_ms: cooldown_ms, ..g1 },
                FireVerdict::Shot,
            )
        }
    }
}

/// Processing the same fire sequence number a second time changes nothing:
/// in particular it does not consume ammunition again.
pub proof fn law_fire_seq_dedup(g: GateView, q: u32, reload_ms: u32, cooldown_ms: u32)
    ensures
        ({
            let (g1, v1) = gate_spec(g, Some(q), reload_ms, cooldown_ms);
            let (g2, v2) = gate_spec(g1, Some(q), reload_ms, cooldown_ms);
            g2 == g1 && g2.ammo == g1.ammo
        }),
{
}

/// The fire gate's slice of an actor.
pub open spec fn gate_of(a: Actor) -> GateView {
    GateView {
        alive: a.alive,
        last_fire_seq: a.last_fire_seq,
        ammo: a.weapon.ammo,
        cooldown_ms: a.weapon.cooldown_ms,
        reload_ms: a.weapon.reload_ms,
        protect_ms: a.protect_ms,
    }
}

impl World {
    /// Ticks every actor's weapon cooldown and reload and its protection
    /// timer by `dt`; a completed reload refills the magazine and emits the
    /// reload-complete notification.
    #[verifier::loop_isolation(false)]
    pub fn weapon_protect_tick(&mut self, dt: u32) -> (ev: Vec<EventMsg>)
        requires
            old(self).wf(),
        ensures
            final (self).wf(),
            final (self).actors@.len() == old(self).actors@.len(),
            forall|i: int|
                0 <= i < old(self).actors@.len() ==> {
                    let a = old(self).actors@[i];
                    let b = #[trigger] final (self).actors@[i];
                    &&& b == (Actor {
                        weapon: b.weapon,
                        protect_ms: b.protect_ms,
                        ..a
                    })
                    &&& b.weapon.cooldown_ms == if a.weapon.cooldown_ms >= dt {
                        a.weapon.cooldown_ms - dt
                    } else {
                        0
                    }
                    &&& b.weapon.reload_ms == if a.weapon.reload_ms >= dt {
                        a.weapon.reload_ms - dt
                    } else {
                        0
                    }
                    &&& (a.weapon.reload_ms > 0 && a.weapon.reload_ms <= dt) ==> b.weapon.ammo
                        == old(self).cfg.magazine_size
                    &&& !(a.weapon.reload_ms > 0 && a.weapon.reload_ms <= dt) ==> b.weapon.ammo
                        == a.weapon.ammo
                    &&& b.protect_ms == if a.protect_ms >= dt {
                        a.protect_ms - dt
                    } else {
                        0
                    }
                },
            forall|e: int|
                0 <= e < ev@.len() ==> (#[trigger] ev@[e]) matches EventMsg::Ammo {
                    reloading: false,
                    ..
                },
            forall|i: int|
                0 <= i < old(self).actors@.len() && ((#[trigger] old(
                    self,
                ).actors@[i]).weapon.reload_ms > 0 && old(self).actors@[i].weapon.reload_ms <= dt)
                    ==> ev@.contains(
                    EventMsg::Ammo {
                        id: old(self).actors@[i].id,
                        ammo: old(self).cfg.magazine_size,
                        reloading: false,
                    },
                ),
            *final (self) == (World { actors: final (self).actors, ..*old(self) }),
    {
        let mut ev: Vec<EventMsg> = Vec::new();
        let mag = self.cfg.magazine_size;
        let mut i: usize = 0;
        while i < self.actors.len()
            invariant
                *self == (World { actors: self.actors, ..*old(self) }),
                mag == self.cfg.magazine_size,
                self.actors@.len() == old(self).actors@.len(),
                0 <= i <= self.actors@.len(),
                forall|j: int|
                    i <= j < self.actors@.len() ==> #[trigger] self.actors@[j] == old(
                        self,
                    ).actors@[j],
                forall|j: int|
                    0 <= j < i ==> {
                        let a = old(self).actors@[j];
                        let b = #[trigger] self.actors@[j];
                        &&& b == (Actor { weapon: b.weapon, protect_ms: b.protect_ms, ..a })
                        &&& b.weapon.cooldown_ms == if a.weapon.cooldown_ms >= dt {
                            a.weapon.cooldown_ms - dt
                        } else {
                            0
                        }
                        &&& b.weapon.reload_ms == if a.weapon.reload_ms >= dt {
                            a.weapon.reload_ms - dt
                        } else {
                            0
                        }
                        &&& (a.weapon.reload_ms > 0 && a.weapon.reload_ms <= dt) ==> b.weapon.ammo
                            == mag
                        &&& !(a.weapon.reload_ms > 0 && a.weapon.reload_ms <= dt) ==> b.weapon.ammo
                            == a.weapon.ammo
                        &&& b.weapon.wf(mag)
                        &&& b.protect_ms == if a.protect_ms >= dt {
                            a.protect_ms - dt
                        } else {
                            0
                        }
                    },
                forall|e: int|
                    0 <= e < ev@.len() ==> (#[trigger] ev@[e]) matches EventMsg::Ammo {
                        reloading: false,
                        ..
                    },
                forall|j: int|
                    0 <= j < i && ((#[trigger] old(self).actors@[j]).weapon.reload_ms > 0 && old(
                        self,
                    ).actors@[j].weapon.reload_ms <= dt) ==> ev@.contains(
                        EventMsg::Ammo {
                            id: old(self).actors@[j].id,
                            ammo: mag,
                            reloading: false,
                        },
                    ),
                self.cfg == old(self).cfg,
            decreases self.actors@.len() - i,
        {
            let ghost prev = self.actors@;
            let mut a = self.actors.remove(i);
            let done = a.weapon.tick(dt, mag);
            if a.protect_ms >= dt {
                a.protect_ms = a.protect_ms - dt;
            } else {
                a.protect_ms = 0;
            }
            let ghost prevev = ev@;
            if done {
                ev.push(EventMsg::Ammo { id: a.id, ammo: a.weapon.ammo, reloading: false });
            }
            proof {
                assert forall|j: int|
                    0 <= j < i + 1 && ((#[trigger] old(self).actors@[j]).weapon.reload_ms > 0
                        && old(self).actors@[j].weapon.reload_ms <= dt) implies ev@.contains(
                    EventMsg::Ammo { id: old(self).actors@[j].id, ammo: mag, reloading: false },
                ) by {
                    if j < i {
                        assert(prevev.contains(
                            EventMsg::Ammo {
                                id: old(self).actors@[j].id,
                                ammo: mag,
                                reloading: false,
                            },
                        ));
                        assert forall|m: int| 0 <= m < prevev.len() implies #[trigger] ev@[m]
                            == prevev[m] by {}
                        lemma_prefix_keeps_contains(
                            prevev,
                            ev@,
                            EventMsg::Ammo {
                                id: old(self).actors@[j].id,
                                ammo: mag,
                                reloading: false,
                            },
                        );
                    } else {
                        assert(done);
                        assert(ev@[ev@.len() - 1] == (EventMsg::Ammo {
                            id: old(self).actors@[j].id,
                            ammo: mag,
                            reloading: false,
                        }));
                    }
                }
            }
            self.actors.insert(i, a);
            proof {
                crate::world::lemma_remove_insert_is_update(prev, i as int, a);
                assert(self.actors@ == prev.update(i as int, a));
                assert(self.actors@[i as int] == a);
                assert(forall|j: int|
                    0 <= j < self.actors@.len() && j != i ==> #[trigger] self.actors@[j]
                        == prev[j]);
            }
            i = i + 1;
        }
        proof {
            assert forall|j: int| 0 <= j < self.actors@.len() implies (
            #[trigger] self.actors@[j]).wf(self.cfg) by {
                assert(old(self).actors@[j].wf(self.cfg));
            }
            lemma_same_ids_keep_wf(old(self).actors@, self.actors@, self.cfg);
            assert forall|j: int| 0 <= j < self.actors@.len() implies (
            #[trigger] self.actors@[j]).hist_at_most(self.sim_time_ms as int) by {
                assert(self.actors@[j].history == old(self).actors@[j].history);
                assert(old(self).actors@[j].hist_at_most(self.sim_time_ms as int));
            }
        }
        ev
    }

    /// Applies the fire gate for one intent of `id`: deduplicates by
    /// sequence number, refuses while dead, protected, cooling down or
    /// reloading, starts a reload on an empty magazine, and otherwise
    /// consumes one round and starts the cooldown. Emits the ammo update.
    pub fn fire_gate(&mut self, id: u64, seq: Option<u32>) -> (r: (FireVerdict, Vec<EventMsg>))
        requires
            old(self).wf(),
        ensures
            final (self).wf(),
            final (self).actors@.len() == old(self).actors@.len(),
            *final (self) == (World { actors: final (self).actors, ..*old(self) }),
            !old(self).has_actor(id) ==> *final (self) == *old(self) && r.0
                == FireVerdict::NotReady && r.1@.len() == 0,
            forall|i: int|
                0 <= i < old(self).actors@.len() && (#[trigger] old(self).actors@[i]).id != id
                    ==> final (self).actors@[i] == old(self).actors@[i],
            forall|i: int|
                0 <= i < old(self).actors@.len() && (#[trigger] old(self).actors@[i]).id == id
                    ==> {
                    let a = old(self).actors@[i];
                    let b = final (self).actors@[i];
                    let gv = gate_spec(
                        gate_of(a),
                        seq,
                        old(self).cfg.reload_ms,
                        old(self).cfg.fire_cooldown_ms,
                    );
                    &&& gate_of(b) == gv.0
                    &&& r.0 == gv.1
                    &&& b == (Actor {
                        last_fire_seq: b.last_fire_seq,
                        weapon: b.weapon,
                        ..a
                    })
                    &&& r.0 == FireVerdict::StartedReload ==> r.1@ =~= seq![
                        EventMsg::Ammo { id, ammo: 0, reloading: true },
                    ]
                    &&& r.0 == FireVerdict::Shot ==> r.1@ =~= seq![
                        EventMsg::Ammo { id, ammo: b.weapon.ammo, reloading: false },
                    ]
                    &&& (r.0 == FireVerdict::Duplicate || r.0 == FireVerdict::NotReady)
                        ==> r.1@.len() == 0
                },
    {
        let iopt = self.find_actor(id);
        if iopt.is_none() {
            return (FireVerdict::NotReady, Vec::new());
        }
        let i = iopt.unwrap();
        let ghost olda = self.actors@;
        let mut a = self.actors.remove(i);
        let mut ev: Vec<EventMsg> = Vec::new();
        let verdict: FireVerdict;
        if !a.alive {
            verdict = FireVerdict::NotReady;
        } else if matches!(seq, Some(q) if q == a.last_fire_seq) {
            verdict = FireVerdict::Duplicate;
        } else {
            if let Some(q) = seq {
                a.last_fire_seq = q;
            }
            if a.weapon.reload_ms > 0 || a.weapon.cooldown_ms > 0 || a.protect_ms > 0 {
                verdict = FireVerdict::NotReady;
            } else if a.weapon.ammo == 0 {
                a.weapon.start_reload(self.cfg.reload_ms, self.cfg.magazine_size);
                ev.push(EventMsg::Ammo { id, ammo: 0, reloading: true });
                verdict = FireVerdict::StartedReload;
            } else {
                a.weapon.consume_shot(self.cfg.fire_cooldown_ms, self.cfg.magazine_size);
                ev.push(EventMsg::Ammo { id, ammo: a.weapon.ammo, reloading: false });
                verdict = FireVerdict::Shot;
            }
        }
        self.actors.insert(i, a);
        proof {
            crate::world::lemma_remove_insert_is_update(olda, i as int, a);
            assert(self.actors@ == olda.update(i as int, a));
            assert(forall|j: int|
                0 <= j < self.actors@.len() && j != i ==> #[trigger] self.actors@[j] == olda[j]);
            lemma_same_ids_keep_wf(olda, self.actors@, self.cfg);
            assert forall|j: int| 0 <= j < self.actors@.len() implies (
            #[trigger] self.actors@[j]).hist_at_most(self.sim_time_ms as int) by {
                assert(self.actors@[j].history == olda[j].history);
                assert(old(self).actors@[j].hist_at_most(self.sim_time_ms as int));
            }
            assert forall|j: int|
                0 <= j < olda.len() && (#[trigger] olda[j]).id == id implies j == i as int by {
                if j != i as int {
                    assert(olda[j].id != olda[i as int].id);
                }
            }
        }
        (verdict, ev)
    }
}

/// What the present-world occlusion ray first struck, as the physics
/// collaborator reports it: another actor's collider, or static geometry.
#[derive(Clone, Copy, PartialEq, Eq, Structural, Debug)]
pub enum RayHit {
    Actor { id: u64 },
    Obstacle,
}

/// The provisional target that survives occlusion validation: the candidate
/// stands only if the present-world ray up to its distance hit nothing or
/// hit the candidate's own collider.
pub open spec fn accepted_target(target: Option<(u64, i64)>, occl: Option<RayHit>) -> Option<
    (u64, i64),
> {
    match target {
        Some((tid, t)) => {
            if occl is None || occl == Some(RayHit::Actor { id: tid }) {
                Some((tid, t))
            } else {
                None
            }
        },
        None => None,
    }
}

/// One coordinate of the ray point: the offset rounded toward the origin.
pub open spec fn ray_coord(x: int, dc: int, t: int) -> int {
    if dc >= 0 {
        x + (dc * t) / 1000
    } else {
        x - ((-dc) * t) / 1000
    }
}

/// The point `origin + dir * t / 1000`, componentwise.
pub open spec fn ray_point_spec(o: Vec3i, d: Vec3i, t: int) -> Vec3i {
    Vec3i {
        x: ray_coord(o.x as int, d.x as int, t) as i64,
        y: ray_coord(o.y as int, d.y as int, t) as i64,
        z: ray_coord(o.z as int, d.z as int, t) as i64,
    }
}

/// One coordinate of the ray point.
fn ray_coord_exec(x: i64, dc: i64, t: i64) -> (r: i64)
    requires
        -1_000_000 <= x <= 1_000_000,
        -2000 <= dc <= 2000,
        0 <= t <= 1_000_000,
    ensures
        r == ray_coord(x as int, dc as int, t as int),
{
    let mag: u64 = if dc >= 0 {
        dc as u64
    } else {
        (-dc) as u64
    };
    assert(0 <= mag * t <= 2_000_000_000) by (nonlinear_arith)
        requires
            0 <= mag <= 2000,
            0 <= t <= 1_000_000,
        ;
    let m: u64 = mag * (t as u64);
    let off: i64 = (m / 1000) as i64;
    proof {
        vstd::arithmetic::div_mod::lemma_div_pos_is_pos(m as int, 1000);
        vstd::arithmetic::div_mod::lemma_div_is_ordered(m as int, 2_000_000_000, 1000);
    }
    if dc >= 0 {
        x + off
    } else {
        x - off
    }
}

/// The point on the shot ray at parameter `t`, for event payloads.
pub fn ray_point(o: Vec3i, d: Vec3i, t: i64) -> (r: Vec3i)
    requires
        in_world(o),
        is_milli_dir(d),
        0 <= t <= 1_000_000,
    ensures
        r == ray_point_spec(o, d, t as int),
{
    Vec3i {
        x: ray_coord_exec(o.x, d.x, t),
        y: ray_coord_exec(o.y, d.y, t),
        z: ray_coord_exec(o.z, d.z, t),
    }
}

impl World {
    /// The hit parameter the shot would give against actor `k`: its rewound
    /// cylinder at the query time, or nothing if `k` is the shooter, dead,
    /// or without history.
    pub open spec fn shot_cand(self, shooter: u64, o: Vec3i, d: Vec3i, tq: int, k: int) -> Option<
        int,
    > {
        let a = self.actors@[k];
        if a.id != shooter && a.alive {
            match rewind_spec(a.history@, tq) {
                Some(c) => ray_cyl_spec(
                    o,
                    d,
                    self.cfg.fire_range_mm as int,
                    c,
                    self.cfg.hit_half_height_mm as int,
                    self.cfg.hit_radius_mm as int,
                ),
                None => None,
            }
        } else {
            None
        }
    }

    /// The query time a shot fired now is resolved at: the present minus the
    /// fixed lag-compensation offset.
    pub open spec fn rewind_time(self) -> int {
        self.sim_time_ms - self.cfg.lag_comp_ms
    }

    /// Selects the provisional hit for a shot: every other living actor's
    /// position is rewound to the query time, the ray is intersected with
    /// the cylinder standing there, and the closest intersection wins.
    pub fn shot_target(&self, shooter: u64, o: Vec3i, d: Vec3i) -> (r: Option<(u64, i64)>)
        requires
            self.wf(),
            in_world(o),
            is_milli_dir(d),
        ensures
            r is None ==> forall|k: int|
                0 <= k < self.actors@.len() ==> #[trigger] self.shot_cand(
                    shooter,
                    o,
                    d,
                    self.rewind_time(),
                    k,
                ) is None,
            r matches Some((tid, t)) ==> {
                &&& 0 <= t <= self.cfg.fire_range_mm
                &&& exists|k: int|
                    0 <= k < self.actors@.len() && (#[trigger] self.actors@[k]).id == tid
                        && self.shot_cand(shooter, o, d, self.rewind_time(), k) == Some(t as int)
                &&& forall|k: int|
                    0 <= k < self.actors@.len() ==> ((#[trigger] self.shot_cand(
                        shooter,
                        o,
                        d,
                        self.rewind_time(),
                        k,
                    )) matches Some(t2) ==> t2 >= t)
            },
    {
        let tq: i64 = if self.sim_time_ms >= self.cfg.lag_comp_ms as i64 {
            self.sim_time_ms - self.cfg.lag_comp_ms as i64
        } else {
            self.sim_time_ms - self.cfg.lag_comp_ms as i64
        };
        let mut best: Option<(u64, i64)> = None;
        let mut k: usize = 0;
        while k < self.actors.len()
            invariant
                self.wf(),
                in_world(o),
                is_milli_dir(d),
                tq == self.rewind_time(),
                0 <= k <= self.actors@.len(),
                best is None ==> forall|m: int|
                    0 <= m < k ==> #[trigger] self.shot_cand(shooter, o, d, tq as int, m) is None,
                best matches Some((tid, t)) ==> {
                    &&& 0 <= t <= self.cfg.fire_range_mm
                    &&& exists|m: int|
                        0 <= m < k && (#[trigger] self.actors@[m]).id == tid && self.shot_cand(
                            shooter,
                            o,
                            d,
                            tq as int,
                            m,
                        ) == Some(t as int)
                    &&& forall|m: int|
                        0 <= m < k ==> ((#[trigger] self.shot_cand(shooter, o, d, tq as int, m))
                            matches Some(t2) ==> t2 >= t)
                },
            decreases self.actors@.len() - k,
        {
            let a = &self.actors[k];
            if a.id != shooter && a.alive {
                if let Some(c) = rewind_pos(&a.history, tq) {
                    if let Some(t) = ray_cylinder_hit(
                        o,
                        d,
                        self.cfg.fire_range_mm,
                        c,
                        self.cfg.hit_half_height_mm,
                        self.cfg.hit_radius_mm,
                    ) {
                        match best {
                            Some((_bid, bt)) => {
                                if t < bt {
                                    best = Some((a.id, t));
                                }
                            },
                            None => {
                                best = Some((a.id, t));
                            },
                        }
                    }
                }
            }
            k = k + 1;
        }
        best
    }
}

impl World {
    /// Whether damage to `tid` lands at all: the victim exists, lives and
    /// is not under spawn protection.
    pub open spec fn damage_lands(self, tid: u64) -> bool {
        &&& self.has_actor(tid)
        &&& self.actors@[self.actor_ix(tid)].alive
        &&& self.actors@[self.actor_ix(tid)].protect_ms == 0
    }

    /// The victim after taking `dmg`: health saturates at zero; reaching
    /// zero marks it dead and schedules the respawn.
    pub open spec fn damaged_actor(a: Actor, dmg: u16, respawn_delay_ms: u32) -> Actor {
        let hp2 = if a.hp >= dmg {
            (a.hp - dmg) as u16
        } else {
            0u16
        };
        if hp2 > 0 {
            Actor { hp: hp2, ..a }
        } else {
            Actor {
                hp: 0,
                alive: false,
                respawn_pending: true,
                respawn_ms: respawn_delay_ms,
                ..a
            }
        }
    }

    /// Applies `dmg` from `by` to `tid`: saturating damage on a living,
    /// unprotected victim; at zero health, death, a scheduled respawn and
    /// the score credit. Score rows exist for humans only, so only a human
    /// shooter gains a kill and only a human victim a death. Emits the hit
    /// and death notifications and, on a kill, the updated score table.
    pub fn damage_actor(&mut self, tid: u64, by: u64, dmg: u16) -> (ev: Vec<EventMsg>)
        requires
            old(self).wf(),
        ensures
            final (self).wf(),
            *final (self) == (World {
                actors: final (self).actors,
                scores: final (self).scores,
                ..*old(self)
            }),
            !old(self).damage_lands(tid) ==> {
                &&& final (self).actors == old(self).actors
                &&& final (self).scores == old(self).scores
                &&& ev@.len() == 0
            },
            old(self).damage_lands(tid) ==> {
                let i = old(self).actor_ix(tid);
                let a = old(self).actors@[i];
                let b = Self::damaged_actor(a, dmg, old(self).cfg.respawn_delay_ms);
                &&& final (self).actors@ == old(self).actors@.update(i, b)
                &&& b.hp > 0 ==> ev@ =~= seq![
                    EventMsg::Hit { target_id: tid, new_hp: b.hp, by },
                ] && final (self).scores == old(self).scores
                &&& b.hp == 0 ==> {
                    &&& final (self).scores@ == crate::world::bump_deaths(
                        crate::world::bump_kills(old(self).scores@, by),
                        tid,
                    )
                    &&& ev@.len() == 3
                    &&& ev@[0] == (EventMsg::Hit { target_id: tid, new_hp: 0, by })
                    &&& ev@[1] == (EventMsg::Death { target_id: tid, by })
                    &&& ev@[2] matches EventMsg::Score(t) && t@ == final (self).scores@
                }
            },
    {
        let iopt = self.find_actor(tid);
        if iopt.is_none() {
            return Vec::new();
        }
        let i = iopt.unwrap();
        proof {
            old(self).lemma_actor_ix_is(tid, i as int);
        }
        if !self.actors[i].alive || self.actors[i].protect_ms > 0 {
            return Vec::new();
        }
        let ghost olda = self.actors@;
        let mut a = self.actors.remove(i);
        let mut ev: Vec<EventMsg> = Vec::new();
        if a.hp >= dmg {
            a.hp = a.hp - dmg;
        } else {
            a.hp = 0;
        }
        ev.push(EventMsg::Hit { target_id: tid, new_hp: a.hp, by });
        let died = a.hp == 0;
        if died {
            a.alive = false;
            a.respawn_pending = true;
            a.respawn_ms = self.cfg.respawn_delay_ms;
            ev.push(EventMsg::Death { target_id: tid, by });
        }
        self.actors.insert(i, a);
        proof {
            crate::world::lemma_remove_insert_is_update(olda, i as int, a);
            assert(self.actors@ == olda.update(i as int, a));
            assert(forall|j: int|
                0 <= j < self.actors@.len() && j != i ==> #[trigger] self.actors@[j] == olda[j]);
            lemma_same_ids_keep_wf(olda, self.actors@, self.cfg);
            assert forall|j: int| 0 <= j < self.actors@.len() implies (
            #[trigger] self.actors@[j]).hist_at_most(self.sim_time_ms as int) by {
                assert(self.actors@[j].history == olda[j].history);
                assert(old(self).actors@[j].hist_at_most(self.sim_time_ms as int));
            }
        }
        if died {
            self.score_kill(by);
            self.score_death(tid);
            let table = self.score_table();
            ev.push(EventMsg::Score(table));
        }
        ev
    }

    /// Resolves one gated shot: emits the fire notification (with the
    /// impact point only when the provisional target survives occlusion
    /// validation), applies damage to the validated target, and auto-starts
    /// a reload if the magazine emptied on this shot.
    ///
    /// A shot whose present-world ray is blocked by anything other than the
    /// candidate's own collider never produces a hit or death notification
    /// and leaves every actor's health and liveness unchanged.
    pub fn apply_shot(&mut self, shooter: u64, origin: Vec3i, dir: Vec3i, target: Option<(u64, i64)>, occl: Option<RayHit>) -> (ev: Vec<EventMsg>)
        requires
            old(self).wf(),
            in_world(origin),
            is_milli_dir(dir),
            target matches Some((tid, t)) ==> 0 <= t <= 1_000_000 && tid != shooter,
        ensures
            final (self).wf(),
            *final (self) == (World {
                actors: final (self).actors,
                scores: final (self).scores,
                ..*old(self)
            }),
            final (self).actors@.len() == old(self).actors@.len(),
            forall|i: int|
                0 <= i < old(self).actors@.len() ==> (#[trigger] final (self).actors@[i]).id
                    == old(self).actors@[i].id,
            ev@.len() >= 1,
            ev@[0] == (EventMsg::Fire {
                id: shooter,
                origin,
                dir,
                hit: match accepted_target(target, occl) {
                    Some((_tid, t)) => Some(ray_point_spec(origin, dir, t as int)),
                    None => None,
                },
            }),
            accepted_target(target, occl) is None ==> {
                &&& forall|i: int|
                    0 <= i < old(self).actors@.len() ==> (#[trigger] final (self).actors@[i]).hp
                        == old(self).actors@[i].hp && final (self).actors@[i].alive == old(
                        self,
                    ).actors@[i].alive
                &&& forall|e: int|
                    0 <= e < ev@.len() ==> !((#[trigger] ev@[e]) is Hit) && !(ev@[e] is Death)
            },
            accepted_target(target, occl) matches Some((tid, t)) ==> old(self).damage_lands(tid)
                ==> {
                let i = old(self).actor_ix(tid);
                let a = old(self).actors@[i];
                let b = Self::damaged_actor(a, old(self).cfg.damage, old(self).cfg.respawn_delay_ms);
                &&& final (self).actors@[i].hp == b.hp
                &&& final (self).actors@[i].alive == b.alive
                &&& ev@.contains(EventMsg::Hit { target_id: tid, new_hp: b.hp, by: shooter })
                &&& b.hp == 0 ==> ev@.contains(EventMsg::Death { target_id: tid, by: shooter })
                &&& b.hp == 0 ==> {
                    &&& final (self).scores@ == crate::world::bump_deaths(
                        crate::world::bump_kills(old(self).scores@, shooter),
                        tid,
                    )
                    &&& ev@[3] matches EventMsg::Score(t) && t@ == final (self).scores@
                }
            },
            old(self).has_actor(shooter) ==> {
                let si = old(self).actor_ix(shooter);
                let w = old(self).actors@[si].weapon;
                if w.ammo == 0 && w.reload_ms == 0 {
                    final (self).actors@[si].weapon == (WeaponStatus {
                        reload_ms: old(self).cfg.reload_ms,
                        ..w
                    }) && ev@.contains(EventMsg::Ammo { id: shooter, ammo: 0, reloading: true })
                } else {
                    final (self).actors@[si].weapon == w
                }
            },
    {
        let mut ev: Vec<EventMsg> = Vec::new();
        let accepted: Option<(u64, i64)> = match (target, occl) {
            (Some((tid, t)), None) => Some((tid, t)),
            (Some((tid, t)), Some(RayHit::Actor { id })) => {
                if id == tid {
                    Some((tid, t))
                } else {
                    None
                }
            },
            _ => None,
        };
        match accepted {
            Some((_tid, t)) => {
                let p = ray_point(origin, dir, t);
                ev.push(EventMsg::Fire { id: shooter, origin, dir, hit: Some(p) });
            },
            None => {
                ev.push(EventMsg::Fire { id: shooter, origin, dir, hit: None });
            },
        }
        let ghost ev0 = ev@;
        proof {
            assert(accepted == accepted_target(target, occl));
        }
        if let Some((tid, _t)) = accepted {
            let dmg = self.cfg.damage;
            let mut ev2 = self.damage_actor(tid, shooter, dmg);
            ev.append(&mut ev2);
        }
        let ghost mid = *self;
        let ghost evm = ev@;
        let siopt = self.find_actor(shooter);
        let ghost mut reloaded: bool = false;
        if let Some(si) = siopt {
            if self.actors[si].weapon.ammo == 0 && self.actors[si].weapon.reload_ms == 0 {
                let ghost olda = self.actors@;
                let mut a = self.actors.remove(si);
                a.weapon.start_reload(self.cfg.reload_ms, self.cfg.magazine_size);
                self.actors.insert(si, a);
                ev.push(EventMsg::Ammo { id: shooter, ammo: 0, reloading: true });
                proof {
                    reloaded = true;
                    crate::world::lemma_remove_insert_is_update(olda, si as int, a);
                    assert(self.actors@ == olda.update(si as int, a));
                    assert(a == (Actor { weapon: a.weapon, ..mid.actors@[si as int] }));
                    assert(a.weapon == (WeaponStatus {
                        reload_ms: self.cfg.reload_ms,
                        ..mid.actors@[si as int].weapon
                    }));
                    assert(forall|j: int|
                        0 <= j < self.actors@.len() && j != si ==> #[trigger] self.actors@[j]
                            == olda[j]);
                    lemma_same_ids_keep_wf(olda, self.actors@, self.cfg);
                    assert forall|j: int| 0 <= j < self.actors@.len() implies (
                    #[trigger] self.actors@[j]).hist_at_most(self.sim_time_ms as int) by {
                        assert(self.actors@[j].history == olda[j].history);
                        assert(olda[j].hist_at_most(self.sim_time_ms as int));
                    }
                }
            }
        }
        proof {
            // Relate the damage step to the starting state.
            match accepted {
                Some((tid2, _t2)) => {
                    if old(self).damage_lands(tid2) {
                        let i = old(self).actor_ix(tid2);
                        let a0 = old(self).actors@[i];
                        let b = World::damaged_actor(
                            a0,
                            old(self).cfg.damage,
                            old(self).cfg.respawn_delay_ms,
                        );
                        assert(mid.actors@ == old(self).actors@.update(i, b));
                        assert(b.id == a0.id);
                        assert forall|j: int| 0 <= j < mid.actors@.len() implies (
                        #[trigger] mid.actors@[j]).id == old(self).actors@[j].id by {
                            if j != i {
                                assert(mid.actors@[j] == old(self).actors@[j]);
                            }
                        }
                        assert(mid.actors@[i] == b);
                        if reloaded {
                            let k = siopt->Some_0 as int;
                            assert(self.actors@[k].id == shooter);
                            assert(mid.actors@[k].id == shooter);
                            assert(old(self).actors@[k].id == shooter);
                            assert(old(self).actors@[i].id == tid2);
                            assert(k != i);
                            assert(self.actors@[i] == mid.actors@[i]);
                        } else {
                            assert(self.actors@[i] == mid.actors@[i]);
                        }
                        assert(evm[1] == (EventMsg::Hit {
                            target_id: tid2,
                            new_hp: b.hp,
                            by: shooter,
                        }));
                        assert(ev@[1] == evm[1]);
                        assert(ev@.contains(EventMsg::Hit {
                            target_id: tid2,
                            new_hp: b.hp,
                            by: shooter,
                        }));
                        if b.hp == 0 {
                            assert(evm[2] == (EventMsg::Death { target_id: tid2, by: shooter }));
                            assert(ev@[2] == evm[2]);
                            assert(ev@.contains(EventMsg::Death { target_id: tid2, by: shooter }));
                        }
                    } else {
                        assert(mid.actors == old(self).actors);
                    }
                },
                None => {
                    assert(mid.actors == old(self).actors);
                },
            }
            // Relate the final state to the middle state.
            if reloaded {
                let si = siopt->Some_0 as int;
                assert(self.actors@[si].hp == mid.actors@[si].hp);
                assert(self.actors@[si].alive == mid.actors@[si].alive);
                assert(self.actors@[si].id == mid.actors@[si].id);
                assert(forall|j: int|
                    0 <= j < self.actors@.len() && j != si ==> #[trigger] self.actors@[j]
                        == mid.actors@[j]);
            } else {
                assert(self.actors == mid.actors);
                assert(ev@ == evm);
            }
            // Events keep their prefix.
            assert(ev@[0] == ev0[0]);
            assert forall|j: int| 0 <= j < evm.len() implies #[trigger] ev@[j] == evm[j] by {}
            // The has_actor bridge for the shooter clause.
            if old(self).has_actor(shooter) {
                let si0 = old(self).actor_ix(shooter);
                assert(old(self).actors@[si0].id == shooter);
                assert(mid.actors@[si0].id == shooter);
                mid.lemma_actor_ix_is(shooter, si0);
                assert(siopt matches Some(k) && k as int == si0) by {
                    if siopt is None {
                        assert(!self.has_actor(shooter));
                        assert(self.actors@[si0].id == shooter);
                    } else {
                        let k = siopt->Some_0;
                        self.lemma_actor_ix_is(shooter, k as int);
                        assert(self.actors@[si0].id == shooter);
                        self.lemma_actor_ix_is(shooter, si0);
                    }
                }
                // The shooter is never the accepted victim, so the damage step
                // leaves its record alone.
                match accepted {
                    Some((tid2, _t2)) => {
                        if old(self).damage_lands(tid2) {
                            let i = old(self).actor_ix(tid2);
                            assert(old(self).actors@[i].id == tid2);
                            assert(i != si0);
                            assert(mid.actors@[si0] == old(self).actors@[si0]);
                        } else {
                            assert(mid.actors@[si0] == old(self).actors@[si0]);
                        }
                    },
                    None => {
                        assert(mid.actors@[si0] == old(self).actors@[si0]);
                    },
                }
                let w = old(self).actors@[si0].weapon;
                assert(mid.actors@[si0].weapon == w);
                if w.ammo == 0 && w.reload_ms == 0 {
                    assert(reloaded);
                    assert(self.actors@[si0].weapon == (WeaponStatus {
                        reload_ms: old(self).cfg.reload_ms,
                        ..w
                    }));
                    assert(ev@[ev@.len() - 1] == (EventMsg::Ammo {
                        id: shooter,
                        ammo: 0,
                        reloading: true,
                    }));
                    assert(ev@.contains(EventMsg::Ammo { id: shooter, ammo: 0, reloading: true }));
                } else {
                    assert(!reloaded);
                    assert(self.actors@[si0].weapon == w);
                }
            }
        }
        ev
    }
}

/// An extension of a sequence keeps everything already contained.
pub proof fn lemma_prefix_keeps_contains<A>(s: Seq<A>, t: Seq<A>, y: A)
    requires
        s.contains(y),
        t.len() >= s.len(),
        forall|i: int| 0 <= i < s.len() ==> #[trigger] t[i] == s[i],
    ensures
        t.contains(y),
{
    let i = choose|i: int| 0 <= i < s.len() && s[i] == y;
    assert(t[i] == y);
}

impl World {
    /// The respawned shape of an actor: full health and magazine, spawn
    /// protection, grounded and at rest at its new position.
    pub open spec fn respawned_actor(a: Actor, pos: Vec3i, cfg: crate::config::SimConfig) -> Actor {
        Actor {
            pos,
            vy_mm_s: 0,
            grounded: true,
            hp: 100,
            alive: true,
            weapon: WeaponStatus { ammo: cfg.magazine_size, cooldown_ms: 0, reload_ms: 0 },
            protect_ms: cfg.protect_ms,
            respawn_pending: false,
            respawn_ms: 0,
            ..a
        }
    }

    /// Counts every pending respawn down by `dt`; an actor whose delay has
    /// elapsed is relocated to a scattered contention-maximizing spawn
    /// point, restored to full health and magazine, granted protection, and
    /// announced with spawn and ammo notifications.
    pub fn respawn_tick(&mut self, dt: u32) -> (ev: Vec<EventMsg>)
        requires
            old(self).wf(),
        ensures
            final (self).wf(),
            *final (self) == (World { actors: final (self).actors, ..*old(self) }),
            final (self).actors@.len() == old(self).actors@.len(),
            forall|i: int|
                0 <= i < old(self).actors@.len() ==> {
                    let a = old(self).actors@[i];
                    let b = #[trigger] final (self).actors@[i];
                    &&& !a.respawn_pending ==> b == a
                    &&& (a.respawn_pending && a.respawn_ms > dt) ==> b == (Actor {
                        respawn_ms: (a.respawn_ms - dt) as u32,
                        ..a
                    })
                    &&& (a.respawn_pending && a.respawn_ms <= dt) ==> {
                        &&& b == Self::respawned_actor(a, b.pos, old(self).cfg)
                        &&& in_world(b.pos)
                        &&& (old(self).cfg.use_spawn_points && old(self).spawn_points@.len() > 0)
                            ==> old(self).spawn_points@.contains(b.pos)
                        &&& !(old(self).cfg.use_spawn_points && old(self).spawn_points@.len()
                            > 0) ==> b.pos == old(self).cfg.default_spawn
                        &&& ev@.contains(
                            EventMsg::Spawn { id: a.id, pos: b.pos, kind: a.kind },
                        )
                        &&& ev@.contains(
                            EventMsg::Ammo {
                                id: a.id,
                                ammo: old(self).cfg.magazine_size,
                                reloading: false,
                            },
                        )
                    }
                },
            forall|e: int|
                0 <= e < ev@.len() ==> ((#[trigger] ev@[e]) is Spawn || ev@[e] is Ammo),
    {
        let mut ev: Vec<EventMsg> = Vec::new();
        let mut i: usize = 0;
        while i < self.actors.len()
            invariant
                old(self).wf(),
                self.wf(),
                *self == (World { actors: self.actors, ..*old(self) }),
                self.actors@.len() == old(self).actors@.len(),
                0 <= i <= self.actors@.len(),
                forall|j: int|
                    i <= j < self.actors@.len() ==> #[trigger] self.actors@[j] == old(
                        self,
                    ).actors@[j],
                forall|j: int|
                    0 <= j < i ==> {
                        let a = old(self).actors@[j];
                        let b = #[trigger] self.actors@[j];
                        &&& !a.respawn_pending ==> b == a
                        &&& (a.respawn_pending && a.respawn_ms > dt) ==> b == (Actor {
                            respawn_ms: (a.respawn_ms - dt) as u32,
                            ..a
                        })
                        &&& (a.respawn_pending && a.respawn_ms <= dt) ==> {
                            &&& b == Self::respawned_actor(a, b.pos, old(self).cfg)
                            &&& in_world(b.pos)
                            &&& (old(self).cfg.use_spawn_points && old(
                                self,
                            ).spawn_points@.len() > 0) ==> old(self).spawn_points@.contains(b.pos)
                            &&& !(old(self).cfg.use_spawn_points && old(
                                self,
                            ).spawn_points@.len() > 0) ==> b.pos == old(self).cfg.default_spawn
                            &&& ev@.contains(
                                EventMsg::Spawn { id: a.id, pos: b.pos, kind: a.kind },
                            )
                            &&& ev@.contains(
                                EventMsg::Ammo {
                                    id: a.id,
                                    ammo: old(self).cfg.magazine_size,
                                    reloading: false,
                                },
                            )
                        }
                    },
                forall|e: int|
                    0 <= e < ev@.len() ==> ((#[trigger] ev@[e]) is Spawn || ev@[e] is Ammo),
            decreases self.actors@.len() - i,
        {
            let pending = self.actors[i].respawn_pending;
            let ms = self.actors[i].respawn_ms;
            let ghost prevev = ev@;
            let ghost preva = self.actors@;
            if pending {
                if ms > dt {
                    let mut a = self.actors.remove(i);
                    a.respawn_ms = a.respawn_ms - dt;
                    self.actors.insert(i, a);
                    proof {
                        crate::world::lemma_remove_insert_is_update(preva, i as int, a);
                        assert(self.actors@ == preva.update(i as int, a));
                        lemma_same_ids_keep_wf(preva, self.actors@, self.cfg);
                        assert forall|j: int| 0 <= j < self.actors@.len() implies (
                        #[trigger] self.actors@[j]).hist_at_most(self.sim_time_ms as int) by {
                            assert(self.actors@[j].history == preva[j].history);
                            assert(preva[j].hist_at_most(self.sim_time_ms as int));
                        }
                    }
                } else {
                    // Relocation goes to the contention-maximizing spawn
                    // point as the registry stands when this timer fires;
                    // scattering applies only to fresh connections.
                    let pos = self.choose_spawn_point();
                    let mag = self.cfg.magazine_size;
                    let protect = self.cfg.protect_ms;
                    let mut a = self.actors.remove(i);
                    let id = a.id;
                    let kind = a.kind;
                    a.pos = pos;
                    a.vy_mm_s = 0;
                    a.grounded = true;
                    a.hp = 100;
                    a.alive = true;
                    a.weapon = WeaponStatus { ammo: mag, cooldown_ms: 0, reload_ms: 0 };
                    a.protect_ms = protect;
                    a.respawn_pending = false;
                    a.respawn_ms = 0;
                    self.actors.insert(i, a);
                    ev.push(EventMsg::Spawn { id, pos, kind });
                    ev.push(EventMsg::Ammo { id, ammo: mag, reloading: false });
                    proof {
                        crate::world::lemma_remove_insert_is_update(preva, i as int, a);
                        assert(self.actors@ == preva.update(i as int, a));
                        lemma_same_ids_keep_wf(preva, self.actors@, self.cfg);
                        assert forall|j: int| 0 <= j < self.actors@.len() implies (
                        #[trigger] self.actors@[j]).hist_at_most(self.sim_time_ms as int) by {
                            assert(self.actors@[j].history == preva[j].history);
                            assert(preva[j].hist_at_most(self.sim_time_ms as int));
                        }
                        assert(ev@[ev@.len() - 2] == (EventMsg::Spawn { id, pos, kind }));
                        assert(ev@[ev@.len() - 1] == (EventMsg::Ammo {
                            id,
                            ammo: mag,
                            reloading: false,
                        }));
                    }
                }
            }
            proof {
                assert forall|j: int|
                    0 <= j < i && (old(self).actors@[j].respawn_pending && old(
                        self,
                    ).actors@[j].respawn_ms <= dt) implies ev@.contains(
                    EventMsg::Spawn {
                        id: old(self).actors@[j].id,
                        pos: self.actors@[j].pos,
                        kind: old(self).actors@[j].kind,
                    },
                ) && ev@.contains(
                    EventMsg::Ammo {
                        id: old(self).actors@[j].id,
                        ammo: old(self).cfg.magazine_size,
                        reloading: false,
                    },
                ) by {
                    assert(self.actors@[j] == preva[j]);
                    assert(prevev.contains(
                        EventMsg::Spawn {
                            id: old(self).actors@[j].id,
                            pos: self.actors@[j].pos,
                            kind: old(self).actors@[j].kind,
                        },
                    ));
                    assert(prevev.contains(
                        EventMsg::Ammo {
                            id: old(self).actors@[j].id,
                            ammo: old(self).cfg.magazine_size,
                            reloading: false,
                        },
                    ));
                    assert forall|m: int| 0 <= m < prevev.len() implies #[trigger] ev@[m]
                        == prevev[m] by {}
                    lemma_prefix_keeps_contains(
                        prevev,
                        ev@,
                        EventMsg::Spawn {
                            id: old(self).actors@[j].id,
                            pos: self.actors@[j].pos,
                            kind: old(self).actors@[j].kind,
                        },
                    );
                    lemma_prefix_keeps_contains(
                        prevev,
                        ev@,
                        EventMsg::Ammo {
                            id: old(self).actors@[j].id,
                            ammo: old(self).cfg.magazine_size,
                            reloading: false,
                        },
                    );
                }
            }
            i = i + 1;
        }
        ev
    }
}

/// A pointwise update that keeps every id and every actor well formed
/// keeps the registry's id uniqueness.
pub proof fn lemma_same_ids_keep_wf(olda: Seq<Actor>, newa: Seq<Actor>, cfg: crate::config::SimConfig)
    requires
        olda.len() == newa.len(),
        forall|i: int| 0 <= i < newa.len() ==> (#[trigger] newa[i]).id == olda[i].id,
        forall|i: int| 0 <= i < newa.len() ==> (#[trigger] newa[i]).wf(cfg),
        forall|i: int, j: int|
            0 <= i < j < olda.len() ==> (#[trigger] olda[i]).id != (#[trigger] olda[j]).id,
    ensures
        forall|i: int, j: int|
            0 <= i < j < newa.len() ==> (#[trigger] newa[i]).id != (#[trigger] newa[j]).id,
{
    assert forall|i: int, j: int|
        0 <= i < j < newa.len() implies (#[trigger] newa[i]).id != (#[trigger] newa[j]).id by {
        assert(olda[i].id != olda[j].id);
    }
}

} // verus!
