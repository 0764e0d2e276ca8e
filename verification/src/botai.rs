//! The bot subsystem: perception and the Wander / Seek / Combat / Lost
//! state machine, wander-destination planning, steering with a turn-rate
//! clamp, and the bot fire path (reaction delay, direct aim, occlusion
//! validation, bot damage).
//!
//! Line-of-sight and ground rays go through the physics collaborator: the
//! library produces the queries, the tick driver answers them, and every
//! decision on the answers is verified for every possible answer.

use vstd::prelude::*;
use crate::actor::Actor;
use crate::actor::BotControl;
use crate::actor::BotFsm;
use crate::config::SimConfig;
use crate::fire::RayHit;
use crate::fire::accepted_target;
use crate::fire::ray_point;
use crate::fire::ray_point_spec;
use crate::fire::lemma_same_ids_keep_wf;
use crate::math::Vec3i;
use crate::math::dist2;
use crate::math::dist2_exec;
use crate::math::in_world;
use crate::math::is_milli_dir;
use crate::math::isqrt64;
use crate::math::sin_mrad;
use crate::math::cos_mrad;
use crate::math::wrap_pi;
use crate::math::wrap_pi_spec;
use crate::math::PI_MRAD;
use crate::rng::random_below;
use crate::types::ActorKind;
use crate::types::EventMsg;
use crate::weapon::WeaponStatus;
use crate::world::World;

verus! {

/// One line-of-sight query the tick driver must answer: can the bot see the
/// target's eye point from its own?
#[derive(Clone, Copy, PartialEq, Eq, Structural, Debug)]
pub struct LosQuery {
    pub target: u64,
    pub from: Vec3i,
    pub to: Vec3i,
}

/// The line-of-sight queries a bot owes this tick: one per living human
/// within detection range, in registry order, between the two eye points.
pub open spec fn percep_queries(s: Seq<Actor>, bot_id: u64, bpos: Vec3i, eye: i64, detect: i64) -> Seq<LosQuery>
    decreases s.len(),
{
    if s.len() == 0 {
        Seq::empty()
    } else {
        let rest = percep_queries(s.drop_last(), bot_id, bpos, eye, detect);
        let a = s.last();
        if a.kind == ActorKind::Human && a.alive && a.id != bot_id && dist2(a.pos, bpos) <= detect
            * detect {
            rest.push(
                LosQuery { target: a.id, from: eye_point(bpos, eye), to: eye_point(a.pos, eye) },
            )
        } else {
            rest
        }
    }
}

impl World {
    /// Whether actor `k` is a perception candidate for the bot: a living
    /// human within detection range.
    pub open spec fn percep_cand(self, bot_pos: Vec3i, k: int) -> bool {
        let a = self.actors@[k];
        &&& a.kind == ActorKind::Human
        &&& a.alive
        &&& dist2(a.pos, bot_pos) <= self.cfg.bot_detect_mm * self.cfg.bot_detect_mm
    }

    /// The line-of-sight queries for one bot: one per living human within
    /// detection range, from the bot's eye to the target's eye.
    pub fn bot_perception_queries(&self, bot_id: u64) -> (r: Vec<LosQuery>)
        requires
            self.wf(),
        ensures
            !self.has_actor(bot_id) ==> r@.len() == 0,
            self.has_actor(bot_id) ==> r@ == percep_queries(
                self.actors@,
                bot_id,
                self.actors@[self.actor_ix(bot_id)].pos,
                self.cfg.eye_height_mm,
                self.cfg.bot_detect_mm,
            ),
    {
        let mut out: Vec<LosQuery> = Vec::new();
        let iopt = self.find_actor(bot_id);
        if iopt.is_none() {
            return out;
        }
        let bi = iopt.unwrap();
        proof {
            self.lemma_actor_ix_is(bot_id, bi as int);
        }
        let bpos = self.actors[bi].pos;
        let eye = self.cfg.eye_height_mm;
        let from = Vec3i { x: bpos.x, y: clamp_eye(bpos.y + eye), z: bpos.z };
        proof {
            assert(from == eye_point(bpos, eye));
        }
        let n = self.actors.len();
        let mut k: usize = 0;
        while k < n
            invariant
                self.wf(),
                n == self.actors@.len(),
                0 <= k <= n,
                0 <= eye <= 10_000,
                eye == self.cfg.eye_height_mm,
                in_world(bpos),
                from == eye_point(bpos, eye),
                out@ == percep_queries(
                    self.actors@.subrange(0, k as int),
                    bot_id,
                    bpos,
                    eye,
                    self.cfg.bot_detect_mm,
                ),
            decreases n - k,
        {
            proof {
                assert(self.actors@.subrange(0, k + 1 as int).drop_last() =~= self.actors@.subrange(
                    0,
                    k as int,
                ));
                assert(self.actors@.subrange(0, k + 1 as int).last() == self.actors@[k as int]);
            }
            let a = &self.actors[k];
            if a.kind == ActorKind::Human && a.alive && a.id != bot_id {
                let d2 = dist2_exec(a.pos, bpos);
                if d2 <= sq_mm(self.cfg.bot_detect_mm) {
                    let to = Vec3i { x: a.pos.x, y: clamp_eye(a.pos.y + eye), z: a.pos.z };
                    proof {
                        assert(to == eye_point(self.actors@[k as int].pos, eye));
                    }
                    out.push(LosQuery { target: a.id, from, to });
                }
            }
            k = k + 1;
        }
        proof {
            assert(self.actors@.subrange(0, n as int) =~= self.actors@);
        }
        out
    }

    /// The nearest visible candidate among actors `i..`: walks the registry,
    /// keeping the earliest strict minimum of the squared distance.
    pub open spec fn best_visible(self, bot_id: u64, bot_pos: Vec3i, visible: Seq<u64>, i: int) -> Option<(u64, int)>
        decreases self.actors@.len() - i,
    {
        if i < 0 || i >= self.actors@.len() {
            None
        } else {
            let rest = self.best_visible(bot_id, bot_pos, visible, i + 1);
            let a = self.actors@[i];
            if a.id != bot_id && self.percep_cand(bot_pos, i) && visible.contains(a.id) {
                match rest {
                    None => Some((a.id, dist2(a.pos, bot_pos))),
                    Some((rid, rd)) => {
                        if dist2(a.pos, bot_pos) <= rd {
                            Some((a.id, dist2(a.pos, bot_pos)))
                        } else {
                            rest
                        }
                    },
                }
            } else {
                rest
            }
        }
    }

    /// The perception and state-machine step for one bot, given which
    /// queried targets the line-of-sight rays found visible. A visible
    /// target in the desired band means Combat, outside it Seek; losing
    /// sight for longer than the grace period means Lost, and Lost decays
    /// to Wander after its timer.
    pub open spec fn perceive_step(bot: BotControl, best: Option<(u64, int)>, dt: u32, cfg: SimConfig) -> BotControl {
        match best {
            Some((pid, d2)) => {
                let near2 = cfg.bot_desired_near_mm * cfg.bot_desired_near_mm;
                let far2 = cfg.bot_desired_far_mm * cfg.bot_desired_far_mm;
                BotControl {
                    target: Some(pid),
                    los_missing_ms: 0,
                    fsm: if d2 < near2 || d2 > far2 {
                        BotFsm::Seek
                    } else {
                        BotFsm::Combat
                    },
                    lost_timer_ms: 0,
                    ..bot
                }
            },
            None => {
                let miss = if bot.los_missing_ms + dt < 0xffff_ffff {
                    (bot.los_missing_ms + dt) as u32
                } else {
                    0xffff_ffffu32
                };
                if bot.target is Some && miss >= cfg.bot_los_grace_ms {
                    BotControl {
                        target: None,
                        fsm: BotFsm::Lost,
                        lost_timer_ms: cfg.bot_lost_ms,
                        los_missing_ms: 0,
                        ..bot
                    }
                } else if bot.fsm == BotFsm::Lost {
                    let t = if bot.lost_timer_ms >= dt {
                        (bot.lost_timer_ms - dt) as u32
                    } else {
                        0u32
                    };
                    BotControl {
                        los_missing_ms: miss,
                        lost_timer_ms: t,
                        fsm: if t == 0 {
                            BotFsm::Wander
                        } else {
                            BotFsm::Lost
                        },
                        ..bot
                    }
                } else {
                    BotControl {
                        los_missing_ms: miss,
                        fsm: if bot.target is None {
                            BotFsm::Wander
                        } else {
                            bot.fsm
                        },
                        ..bot
                    }
                }
            },
        }
    }

    /// Runs perception and the state machine for one bot: the nearest
    /// visible living human within range becomes the focus target and sets
    /// Seek or Combat by distance; no visible target beyond the grace
    /// period sets Lost, which decays to Wander.
    pub fn bot_perceive(&mut self, bot_id: u64, dt: u32, visible: &Vec<u64>) -> (r: Option<
        (u64, i64),
    >)
        requires
            old(self).wf(),
        ensures
            final (self).wf(),
            *final (self) == (World { actors: final (self).actors, ..*old(self) }),
            !(old(self).has_actor(bot_id) && old(self).actors@[old(self).actor_ix(bot_id)].alive)
                ==> final (self).actors == old(self).actors && r is None,
            (old(self).has_actor(bot_id) && old(self).actors@[old(self).actor_ix(bot_id)].alive)
                ==> {
                let i = old(self).actor_ix(bot_id);
                let a = old(self).actors@[i];
                let best = old(self).best_visible(bot_id, a.pos, visible@, 0);
                let b = Actor { bot: Self::perceive_step(a.bot, best, dt, old(self).cfg), ..a };
                &&& final (self).actors@ == old(self).actors@.update(i, b)
                &&& match best {
                    Some((pid, d2)) => r matches Some((rid, rd)) && rid == pid && rd == d2,
                    None => r is None,
                }
            },
    {
        let iopt = self.find_actor(bot_id);
        if iopt.is_none() {
            return None;
        }
        let i = iopt.unwrap();
        proof {
            old(self).lemma_actor_ix_is(bot_id, i as int);
        }
        if !self.actors[i].alive {
            return None;
        }
        let bpos = self.actors[i].pos;
        // Nearest visible candidate, walked from the back to mirror the
        // recursive definition.
        let mut best: Option<(u64, i64)> = None;
        let n = self.actors.len();
        let mut k: usize = n;
        while k > 0
            invariant
                self.wf(),
                *self == *old(self),
                0 <= k <= n,
                n == self.actors@.len(),
                in_world(bpos),
                match best {
                    Some((rid, rd)) => self.best_visible(bot_id, bpos, visible@, k as int)
                        == Some((rid, rd as int)),
                    None => self.best_visible(bot_id, bpos, visible@, k as int) is None,
                },
            decreases k,
        {
            k = k - 1;
            let a = &self.actors[k];
            if a.id != bot_id && a.alive && a.kind == ActorKind::Human {
                let d2 = dist2_exec(a.pos, bpos);
                if d2 <= sq_mm(self.cfg.bot_detect_mm) && contains_id(visible, a.id) {
                    match best {
                        Some((_rid, rd)) => {
                            if d2 <= rd {
                                best = Some((a.id, d2));
                            }
                        },
                        None => {
                            best = Some((a.id, d2));
                        },
                    }
                }
            }
        }
        let ghost olda = self.actors@;
        let mut a = self.actors.remove(i);
        let cfg = self.cfg;
        let mut bot = a.bot;
        match best {
            Some((pid, d2)) => {
                let near2 = sq_mm(self.cfg.bot_desired_near_mm);
                let far2 = sq_mm(self.cfg.bot_desired_far_mm);
                bot.target = Some(pid);
                bot.los_missing_ms = 0;
                bot.fsm = if d2 < near2 || d2 > far2 {
                    BotFsm::Seek
                } else {
                    BotFsm::Combat
                };
                bot.lost_timer_ms = 0;
            },
            None => {
                let miss: u32 = if bot.los_missing_ms < 0xffff_ffff - dt {
                    bot.los_missing_ms + dt
                } else {
                    0xffff_ffff
                };
                if bot.target.is_some() && miss >= self.cfg.bot_los_grace_ms {
                    bot.target = None;
                    bot.fsm = BotFsm::Lost;
                    bot.lost_timer_ms = self.cfg.bot_lost_ms;
                    bot.los_missing_ms = 0;
                } else if bot.fsm == BotFsm::Lost {
                    let t: u32 = if bot.lost_timer_ms >= dt {
                        bot.lost_timer_ms - dt
                    } else {
                        0
                    };
                    bot.los_missing_ms = miss;
                    bot.lost_timer_ms = t;
                    bot.fsm = if t == 0 {
                        BotFsm::Wander
                    } else {
                        BotFsm::Lost
                    };
                } else {
                    bot.los_missing_ms = miss;
                    if bot.target.is_none() {
                        bot.fsm = BotFsm::Wander;
                    }
                }
            },
        }
        a.bot = bot;
        self.actors.insert(i, a);
        proof {
            crate::world::lemma_remove_insert_is_update(olda, i as int, a);
            assert(self.actors@ == olda.update(i as int, a));
            lemma_same_ids_keep_wf(olda, self.actors@, self.cfg);
            assert forall|j: int| 0 <= j < self.actors@.len() implies (
            #[trigger] self.actors@[j]).hist_at_most(self.sim_time_ms as int) by {
                assert(self.actors@[j].history == olda[j].history);
                assert(olda[j].hist_at_most(self.sim_time_ms as int));
            }
        }
        best
    }
}

/// The steering decision for one bot this tick: the forward and strafe
/// directions (scaled by 1000), and the forward ground probe points for
/// cliff avoidance.
#[derive(Clone, Copy, PartialEq, Eq, Structural, Debug)]
pub struct BotSteer {
    pub fwd: Vec3i,
    pub strafe: Vec3i,
    pub probe_here: Vec3i,
    pub probe_ahead: Vec3i,
}

/// A planned bot shot: the chosen target, the eye-point origin, the direct
/// aim direction (scaled by 1000) and the distance to the target's eye.
#[derive(Clone, Copy, PartialEq, Eq, Structural, Debug)]
pub struct BotShot {
    pub target: u64,
    pub origin: Vec3i,
    pub dir: Vec3i,
    pub dist: i64,
}

impl World {
    /// Counts a bot's wander replan timer down; a new destination is needed
    /// when the timer elapsed, none is set, or the bot stands within a metre
    /// of the current one.
    pub fn bot_wander_tick(&mut self, bot_id: u64, dt: u32) -> (need_new: bool)
        requires
            old(self).wf(),
        ensures
            final (self).wf(),
            *final (self) == (World { actors: final (self).actors, ..*old(self) }),
            !(old(self).has_actor(bot_id) && old(self).actors@[old(self).actor_ix(bot_id)].alive)
                ==> final (self).actors == old(self).actors && !need_new,
            (old(self).has_actor(bot_id) && old(self).actors@[old(self).actor_ix(bot_id)].alive)
                ==> {
                let i = old(self).actor_ix(bot_id);
                let a = old(self).actors@[i];
                let t = if a.bot.wander_timer_ms >= dt {
                    (a.bot.wander_timer_ms - dt) as u32
                } else {
                    0u32
                };
                let b = Actor { bot: BotControl { wander_timer_ms: t, ..a.bot }, ..a };
                &&& final (self).actors@ == old(self).actors@.update(i, b)
                &&& need_new == (t == 0 || a.bot.wander_dest is None || (
                a.bot.wander_dest matches Some(d) && dist2(a.pos, d) < 1_000_000))
            },
    {
        let iopt = self.find_actor(bot_id);
        if iopt.is_none() {
            return false;
        }
        let i = iopt.unwrap();
        proof {
            old(self).lemma_actor_ix_is(bot_id, i as int);
        }
        if !self.actors[i].alive {
            return false;
        }
        let ghost olda = self.actors@;
        let mut a = self.actors.remove(i);
        if a.bot.wander_timer_ms >= dt {
            a.bot.wander_timer_ms = a.bot.wander_timer_ms - dt;
        } else {
            a.bot.wander_timer_ms = 0;
        }
        let need_new: bool = if a.bot.wander_timer_ms == 0 {
            true
        } else {
            match a.bot.wander_dest {
                None => true,
                Some(d) => dist2_exec(a.pos, d) < 1_000_000,
            }
        };
        self.actors.insert(i, a);
        proof {
            crate::world::lemma_remove_insert_is_update(olda, i as int, a);
            assert(self.actors@ == olda.update(i as int, a));
            lemma_same_ids_keep_wf(olda, self.actors@, self.cfg);
            assert forall|j: int| 0 <= j < self.actors@.len() implies (
            #[trigger] self.actors@[j]).hist_at_most(self.sim_time_ms as int) by {
                assert(self.actors@[j].history == olda[j].history);
                assert(olda[j].hist_at_most(self.sim_time_ms as int));
            }
        }
        need_new
    }

    /// Samples candidate wander points around a bot: random planar offsets
    /// within the wander radius, raised well above the bot so the tick
    /// driver can project each onto the ground with a downward ray.
    pub fn bot_wander_samples(&self, bot_id: u64) -> (r: Vec<Vec3i>)
        requires
            self.wf(),
        ensures
            forall|k: int| 0 <= k < r@.len() ==> in_world(#[trigger] r@[k]),
            !self.has_actor(bot_id) ==> r@.len() == 0,
            self.has_actor(bot_id) ==> {
                let c = self.actors@[self.actor_ix(bot_id)].pos;
                &&& r@.len() == self.cfg.bot_wander_retry
                &&& forall|k: int|
                    0 <= k < r@.len() ==> {
                        let p = #[trigger] r@[k];
                        &&& c.x - self.cfg.bot_wander_radius_mm <= p.x <= c.x
                            + self.cfg.bot_wander_radius_mm
                        &&& c.z - self.cfg.bot_wander_radius_mm <= p.z <= c.z
                            + self.cfg.bot_wander_radius_mm
                        &&& p.y == crate::world::clamp_world_spec(c.y + 30_000)
                    }
            },
    {
        let mut out: Vec<Vec3i> = Vec::new();
        let iopt = self.find_actor(bot_id);
        if iopt.is_none() {
            return out;
        }
        let i = iopt.unwrap();
        proof {
            self.lemma_actor_ix_is(bot_id, i as int);
        }
        let center = self.actors[i].pos;
        let radius = self.cfg.bot_wander_radius_mm;
        let mut tries: usize = 0;
        while tries < self.cfg.bot_wander_retry
            invariant
                self.wf(),
                in_world(center),
                radius == self.cfg.bot_wander_radius_mm,
                0 <= tries <= self.cfg.bot_wander_retry,
                out@.len() == tries,
                forall|k: int| 0 <= k < out@.len() ==> in_world(#[trigger] out@[k]),
                forall|k: int|
                    0 <= k < out@.len() ==> {
                        let p = #[trigger] out@[k];
                        &&& center.x - radius <= p.x <= center.x + radius
                        &&& center.z - radius <= p.z <= center.z + radius
                        &&& p.y == crate::world::clamp_world_spec(center.y + 30_000)
                    },
            decreases self.cfg.bot_wander_retry - tries,
        {
            let ang: i64 = (random_below(2 * (PI_MRAD as u64) + 1) as i64) - PI_MRAD;
            let rad: i64 = random_below((self.cfg.bot_wander_radius_mm + 1) as u64) as i64;
            let c = cos_mrad(ang);
            let s = sin_mrad(ang);
            proof {
                assert(-100_000_000 <= c * rad <= 100_000_000 && -100_000_000 <= s * rad
                    <= 100_000_000) by (nonlinear_arith)
                    requires
                        -1000 <= c <= 1000 && -1000 <= s <= 1000,
                        0 <= rad <= 100_000,
                    ;
                if rad > 0 {
                    crate::scaffold::lemma_push_bounded(c as int, 1000, rad as int);
                    crate::scaffold::lemma_push_bounded(s as int, 1000, rad as int);
                } else {
                    assert(c * rad == 0 && s * rad == 0) by (nonlinear_arith)
                        requires
                            rad == 0,
                        ;
                }
            }
            let dx = crate::motion::sdivq_exec(c * rad, 1000);
            let dz = crate::motion::sdivq_exec(s * rad, 1000);
            let p = Vec3i {
                x: crate::world::clamp_world(center.x + dx),
                y: crate::world::clamp_world(center.y + 30_000),
                z: crate::world::clamp_world(center.z + dz),
            };
            out.push(p);
            tries = tries + 1;
        }
        out
    }

    /// Stores a bot's new wander destination (the ground-projected sample
    /// the tick driver chose, or the bot's own position when every probe
    /// failed) and restarts the replan timer.
    pub fn bot_wander_accept(&mut self, bot_id: u64, dest: Option<Vec3i>)
        requires
            old(self).wf(),
            dest matches Some(p) ==> in_world(p),
        ensures
            final (self).wf(),
            *final (self) == (World { actors: final (self).actors, ..*old(self) }),
            !old(self).has_actor(bot_id) ==> final (self).actors == old(self).actors,
            old(self).has_actor(bot_id) ==> {
                let i = old(self).actor_ix(bot_id);
                let a = old(self).actors@[i];
                let d = match dest {
                    Some(p) => p,
                    None => a.pos,
                };
                let b = Actor {
                    bot: BotControl {
                        wander_dest: Some(d),
                        wander_timer_ms: old(self).cfg.bot_wander_replan_ms,
                        ..a.bot
                    },
                    ..a
                };
                final (self).actors@ == old(self).actors@.update(i, b)
            },
    {
        let iopt = self.find_actor(bot_id);
        if iopt.is_none() {
            return ;
        }
        let i = iopt.unwrap();
        proof {
            old(self).lemma_actor_ix_is(bot_id, i as int);
        }
        let ghost olda = self.actors@;
        let mut a = self.actors.remove(i);
        let d = match dest {
            Some(p) => p,
            None => a.pos,
        };
        a.bot.wander_dest = Some(d);
        a.bot.wander_timer_ms = self.cfg.bot_wander_replan_ms;
        self.actors.insert(i, a);
        proof {
            crate::world::lemma_remove_insert_is_update(olda, i as int, a);
            assert(self.actors@ == olda.update(i as int, a));
            lemma_same_ids_keep_wf(olda, self.actors@, self.cfg);
            assert forall|j: int| 0 <= j < self.actors@.len() implies (
            #[trigger] self.actors@[j]).hist_at_most(self.sim_time_ms as int) by {
                assert(self.actors@[j].history == olda[j].history);
                assert(olda[j].hist_at_most(self.sim_time_ms as int));
            }
        }
    }
}

/// The planar normalization of a difference vector, scaled by 1000; the
/// zero vector stays zero.
pub open spec fn norm_xz_spec(d: Vec3i) -> Vec3i {
    let l2 = d.x * d.x + d.z * d.z;
    if l2 == 0 {
        Vec3i { x: 0, y: 0, z: 0 }
    } else {
        let l = crate::math::sqrt_floor(l2);
        Vec3i {
            x: crate::motion::sdivq(d.x * 1000, l) as i64,
            y: 0,
            z: crate::motion::sdivq(d.z * 1000, l) as i64,
        }
    }
}

/// Normalizes a planar difference vector to the unit scale.
pub fn norm_xz(d: Vec3i) -> (r: Vec3i)
    requires
        -2_000_000 <= d.x <= 2_000_000,
        -2_000_000 <= d.z <= 2_000_000,
    ensures
        r == norm_xz_spec(d),
        is_milli_dir(r),
        r.y == 0,
{
    proof {
        assert(0 <= d.x * d.x <= 4_000_000_000_000 && 0 <= d.z * d.z <= 4_000_000_000_000)
            by (nonlinear_arith)
            requires
                -2_000_000 <= d.x <= 2_000_000 && -2_000_000 <= d.z <= 2_000_000,
            ;
    }
    let l2: i64 = d.x * d.x + d.z * d.z;
    if l2 == 0 {
        return Vec3i { x: 0, y: 0, z: 0 };
    }
    let lw: u64 = isqrt64(l2 as u64);
    proof {
        assert(lw <= 3_000_000) by (nonlinear_arith)
            requires
                lw * lw <= 8_000_000_000_000u64,
            ;
    }
    let l: i64 = lw as i64;
    proof {
        assert(l >= 1);
        assert(d.x <= l && -d.x <= l && d.z <= l && -d.z <= l) by (nonlinear_arith)
            requires
                d.x * d.x <= l2 && d.z * d.z <= l2,
                l >= 0,
                l2 < (l + 1) * (l + 1),
            ;
        assert(-2_000_000_000 <= d.x * 1000 <= 2_000_000_000 && -2_000_000_000 <= d.z * 1000
            <= 2_000_000_000) by (nonlinear_arith)
            requires
                -2_000_000 <= d.x <= 2_000_000 && -2_000_000 <= d.z <= 2_000_000,
            ;
        crate::motion::lemma_scaled_bounded(d.x as int, l as int);
        crate::motion::lemma_scaled_bounded(d.z as int, l as int);
    }
    Vec3i {
        x: crate::motion::sdivq_exec(d.x * 1000, l),
        y: 0,
        z: crate::motion::sdivq_exec(d.z * 1000, l),
    }
}

/// The yaw after one steering tick: turned toward the facing direction's
/// angle, by at most the turn rate times `dt`, and wrapped to the canonical
/// turn. A zero facing leaves the yaw alone.
pub open spec fn steer_yaw_spec(yaw: int, face: Vec3i, turn_rate: int, dt: u32) -> int {
    if face.x == 0 && face.z == 0 {
        yaw
    } else {
        let desired = crate::math::atan2_mrad_spec(face.z as int, face.x as int)
            + crate::math::HALF_PI_MRAD;
        let delta = wrap_pi_spec(desired - yaw);
        let maxturn = (turn_rate * dt) / 1000;
        let dc = if delta > maxturn {
            maxturn
        } else if delta < -maxturn {
            -maxturn
        } else {
            delta
        };
        wrap_pi_spec(yaw + dc)
    }
}

/// Turns a yaw toward the facing direction, clamped by the turn rate.
pub fn steer_yaw(yaw: i64, face: Vec3i, turn_rate: i64, dt: u32) -> (r: i64)
    requires
        -PI_MRAD <= yaw <= PI_MRAD,
        is_milli_dir(face),
        0 < turn_rate <= 1_000_000,
        0 < dt <= 1000,
    ensures
        r == steer_yaw_spec(yaw as int, face, turn_rate as int, dt),
        -PI_MRAD <= r <= PI_MRAD,
{
    if face.x == 0 && face.z == 0 {
        return yaw;
    }
    let desired: i64 = crate::math::atan2_mrad(face.z, face.x) + crate::math::HALF_PI_MRAD;
    let delta: i64 = wrap_pi(desired - yaw);
    proof {
        assert(0 <= turn_rate * dt <= 1_000_000_000) by (nonlinear_arith)
            requires
                0 < turn_rate <= 1_000_000,
                0 < dt <= 1000,
            ;
        vstd::arithmetic::div_mod::lemma_div_pos_is_pos(turn_rate * dt, 1000);
        vstd::arithmetic::div_mod::lemma_div_is_ordered(turn_rate * dt, 1_000_000_000, 1000);
    }
    let maxturn: i64 = (((turn_rate as u64) * (dt as u64)) / 1000) as i64;
    let dc: i64 = if delta > maxturn {
        maxturn
    } else if delta < -maxturn {
        -maxturn
    } else {
        delta
    };
    wrap_pi(yaw + dc)
}

impl World {
    /// The facing direction of a bot: toward its focus target while seeking
    /// or fighting, toward its wander destination otherwise; zero when
    /// neither exists.
    pub open spec fn bot_face_spec(self, i: int) -> Vec3i {
        let a = self.actors@[i];
        if a.bot.fsm == BotFsm::Seek || a.bot.fsm == BotFsm::Combat {
            match a.bot.target {
                Some(pid) => if self.has_actor(pid) {
                    let t = self.actors@[self.actor_ix(pid)];
                    norm_xz_spec(
                        Vec3i { x: (t.pos.x - a.pos.x) as i64, y: 0, z: (t.pos.z - a.pos.z) as i64 },
                    )
                } else {
                    Vec3i { x: 0, y: 0, z: 0 }
                },
                None => Vec3i { x: 0, y: 0, z: 0 },
            }
        } else {
            match a.bot.wander_dest {
                Some(d) => norm_xz_spec(
                    Vec3i { x: (d.x - a.pos.x) as i64, y: 0, z: (d.z - a.pos.z) as i64 },
                ),
                None => Vec3i { x: 0, y: 0, z: 0 },
            }
        }
    }

    /// One steering tick for a bot: faces the target or the wander
    /// destination under the turn-rate clamp, closes or opens distance
    /// toward the desired band, strafes inside it (alternating on the fixed
    /// interval), and yields the forward ground-probe points for cliff
    /// avoidance.
    pub fn bot_steer(&mut self, bot_id: u64, dt: u32) -> (r: Option<BotSteer>)
        requires
            old(self).wf(),
            0 < dt <= 1000,
        ensures
            final (self).wf(),
            *final (self) == (World { actors: final (self).actors, ..*old(self) }),
            !(old(self).has_actor(bot_id) && old(self).actors@[old(self).actor_ix(bot_id)].alive)
                ==> final (self).actors == old(self).actors && r is None,
            (old(self).has_actor(bot_id) && old(self).actors@[old(self).actor_ix(bot_id)].alive)
                ==> {
                let i = old(self).actor_ix(bot_id);
                let a = old(self).actors@[i];
                let face = old(self).bot_face_spec(i);
                &&& r is Some
                &&& final (self).actors@.len() == old(self).actors@.len()
                &&& final (self).actors@[i].yaw_mrad == steer_yaw_spec(
                    a.yaw_mrad as int,
                    face,
                    old(self).cfg.bot_turn_rate_mrad_s as int,
                    dt,
                )
                &&& forall|j: int|
                    0 <= j < old(self).actors@.len() && j != i
                        ==> #[trigger] final (self).actors@[j] == old(self).actors@[j]
                &&& is_milli_dir(r->Some_0.fwd)
                &&& is_milli_dir(r->Some_0.strafe)
                &&& final (self).actors@[i] == (Actor {
                    yaw_mrad: final (self).actors@[i].yaw_mrad,
                    bot: final (self).actors@[i].bot,
                    ..a
                })
                &&& final (self).actors@[i].bot == (BotControl {
                    strafe_left: final (self).actors@[i].bot.strafe_left,
                    strafe_timer_ms: final (self).actors@[i].bot.strafe_timer_ms,
                    ..a.bot
                })
                &&& {
                    let seeking = a.bot.fsm == BotFsm::Seek || a.bot.fsm == BotFsm::Combat;
                    let zero = Vec3i { x: 0, y: 0, z: 0 };
                    if seeking {
                        match a.bot.target {
                            Some(pid) => {
                                if old(self).has_actor(pid) {
                                    let tp = old(self).actors@[old(self).actor_ix(pid)].pos;
                                    let d2 = dist2(a.pos, tp);
                                    let far2 = old(self).cfg.bot_desired_far_mm * old(self).cfg.bot_desired_far_mm;
                                    let near2 = old(self).cfg.bot_desired_near_mm * old(self).cfg.bot_desired_near_mm;
                                    if d2 > far2 {
                                        r->Some_0.fwd == face && r->Some_0.strafe == zero
                                    } else if d2 < near2 {
                                        r->Some_0.fwd == (Vec3i {
                                            x: (-face.x) as i64,
                                            y: 0,
                                            z: (-face.z) as i64,
                                        }) && r->Some_0.strafe == zero
                                    } else {
                                        r->Some_0.fwd == zero && (r->Some_0.strafe == (Vec3i {
                                            x: face.z,
                                            y: 0,
                                            z: (-face.x) as i64,
                                        }) || r->Some_0.strafe == (Vec3i {
                                            x: (-face.z) as i64,
                                            y: 0,
                                            z: face.x,
                                        }))
                                    }
                                } else {
                                    r->Some_0.fwd == zero && r->Some_0.strafe == zero
                                }
                            },
                            None => r->Some_0.fwd == zero && r->Some_0.strafe == zero,
                        }
                    } else {
                        r->Some_0.fwd == face && r->Some_0.strafe == zero
                    }
                }
            },
    {
        let iopt = self.find_actor(bot_id);
        if iopt.is_none() {
            return None;
        }
        let i = iopt.unwrap();
        proof {
            old(self).lemma_actor_ix_is(bot_id, i as int);
        }
        if !self.actors[i].alive {
            return None;
        }
        let pos = self.actors[i].pos;
        // The facing direction.
        let fsm = self.actors[i].bot.fsm;
        let target = self.actors[i].bot.target;
        let seeking = fsm == BotFsm::Seek || fsm == BotFsm::Combat;
        let mut face = Vec3i { x: 0, y: 0, z: 0 };
        let mut target_pos: Option<Vec3i> = None;
        if seeking {
            if let Some(pid) = target {
                if let Some(ti) = self.find_actor(pid) {
                    proof {
                        self.lemma_actor_ix_is(pid, ti as int);
                    }
                    let tp = self.actors[ti].pos;
                    target_pos = Some(tp);
                    face = norm_xz(Vec3i { x: tp.x - pos.x, y: 0, z: tp.z - pos.z });
                }
            }
        } else {
            if let Some(d) = self.actors[i].bot.wander_dest {
                face = norm_xz(Vec3i { x: d.x - pos.x, y: 0, z: d.z - pos.z });
            }
        }
        proof {
            assert(face == old(self).bot_face_spec(i as int));
        }
        // Forward / strafe by the desired distance band.
        let mut fwd = Vec3i { x: 0, y: 0, z: 0 };
        let mut strafe = Vec3i { x: 0, y: 0, z: 0 };
        let ghost olda = self.actors@;
        let mut a = self.actors.remove(i);
        if seeking {
            if let Some(tp) = target_pos {
                let d2 = dist2_exec(pos, tp);
                let far2 = sq_mm(self.cfg.bot_desired_far_mm);
                let near2 = sq_mm(self.cfg.bot_desired_near_mm);
                if d2 > far2 {
                    fwd = face;
                } else if d2 < near2 {
                    fwd = Vec3i { x: -face.x, y: 0, z: -face.z };
                } else {
                    if a.bot.strafe_timer_ms >= dt {
                        a.bot.strafe_timer_ms = a.bot.strafe_timer_ms - dt;
                    } else {
                        a.bot.strafe_left = !a.bot.strafe_left;
                        a.bot.strafe_timer_ms = self.cfg.bot_strafe_switch_ms;
                    }
                    let side = Vec3i { x: face.z, y: 0, z: -face.x };
                    strafe = if a.bot.strafe_left {
                        Vec3i { x: -side.x, y: 0, z: -side.z }
                    } else {
                        side
                    };
                }
            }
        } else {
            fwd = face;
        }
        // Turn toward the facing direction.
        a.yaw_mrad = steer_yaw(a.yaw_mrad, face, self.cfg.bot_turn_rate_mrad_s, dt);
        self.actors.insert(i, a);
        proof {
            crate::world::lemma_remove_insert_is_update(olda, i as int, a);
            assert(self.actors@ == olda.update(i as int, a));
            lemma_same_ids_keep_wf(olda, self.actors@, self.cfg);
            assert forall|j: int| 0 <= j < self.actors@.len() implies (
            #[trigger] self.actors@[j]).hist_at_most(self.sim_time_ms as int) by {
                assert(self.actors@[j].history == olda[j].history);
                assert(olda[j].hist_at_most(self.sim_time_ms as int));
            }
        }
        // Ground probe points for cliff avoidance.
        proof {
            assert(-1_000_000_000 <= fwd.x * self.cfg.bot_probe_ahead_mm <= 1_000_000_000
                && -1_000_000_000 <= fwd.z * self.cfg.bot_probe_ahead_mm <= 1_000_000_000)
                by (nonlinear_arith)
                requires
                    -2000 <= fwd.x <= 2000 && -2000 <= fwd.z <= 2000,
                    0 < self.cfg.bot_probe_ahead_mm <= 100_000,
                ;
        }
        let ax = crate::motion::sdivq_exec(fwd.x * self.cfg.bot_probe_ahead_mm, 1000);
        let az = crate::motion::sdivq_exec(fwd.z * self.cfg.bot_probe_ahead_mm, 1000);
        let probe_here = Vec3i {
            x: pos.x,
            y: crate::world::clamp_world(pos.y + 1000),
            z: pos.z,
        };
        let probe_ahead = Vec3i {
            x: crate::world::clamp_world(pos.x + ax),
            y: crate::world::clamp_world(pos.y + 1000),
            z: crate::world::clamp_world(pos.z + az),
        };
        Some(BotSteer { fwd, strafe, probe_here, probe_ahead })
    }

    /// The displacement of a bot's tick from its steering decision and the
    /// ground-probe answers: the forward part is suppressed when the probes
    /// predict a drop beyond the safety threshold; gravity integrates into
    /// the vertical part.
    pub fn bot_move_finish(&mut self, bot_id: u64, dt: u32, steer: BotSteer, ground_here: Option<
        i64,
    >, ground_ahead: Option<i64>) -> (r: Option<crate::motion::MoveCmd>)
        requires
            old(self).wf(),
            0 < dt <= 1000,
            is_milli_dir(steer.fwd),
            is_milli_dir(steer.strafe),
            ground_here matches Some(y) ==> -1_000_000 <= y <= 1_000_000,
            ground_ahead matches Some(y) ==> -1_000_000 <= y <= 1_000_000,
        ensures
            final (self).wf(),
            *final (self) == (World { actors: final (self).actors, ..*old(self) }),
            !(old(self).has_actor(bot_id) && old(self).actors@[old(self).actor_ix(bot_id)].alive)
                ==> final (self).actors == old(self).actors && r is None,
            (old(self).has_actor(bot_id) && old(self).actors@[old(self).actor_ix(bot_id)].alive)
                ==> {
                let i = old(self).actor_ix(bot_id);
                let a = old(self).actors@[i];
                let dropped = ground_here matches Some(yh) && (ground_ahead matches Some(ya)
                    && yh - ya > old(self).cfg.bot_max_drop_mm);
                &&& r is Some
                &&& dropped ==> r->Some_0.disp.x == bot_strafe_part(
                    steer.strafe.x as int,
                    old(self).cfg,
                    dt,
                ) && r->Some_0.disp.z == bot_strafe_part(steer.strafe.z as int, old(self).cfg, dt)
                &&& !dropped ==> r->Some_0.disp.x == bot_fwd_part(
                    steer.fwd.x as int,
                    old(self).cfg,
                    dt,
                ) + bot_strafe_part(steer.strafe.x as int, old(self).cfg, dt) && r->Some_0.disp.z
                    == bot_fwd_part(steer.fwd.z as int, old(self).cfg, dt) + bot_strafe_part(
                    steer.strafe.z as int,
                    old(self).cfg,
                    dt,
                )
                &&& {
                    let fall = a.vy_mm_s - (old(self).cfg.gravity_mm_s2 * dt) / 1000;
                    let vy2 = if fall >= -200_000 {
                        fall
                    } else {
                        -200_000int
                    };
                    &&& final (self).actors@ == old(self).actors@.update(
                        i,
                        Actor { vy_mm_s: vy2 as i64, ..a },
                    )
                    &&& r->Some_0.disp.y == crate::motion::sdivq(vy2 * dt, 1000)
                    &&& r->Some_0.disable_snap == false
                }
                &&& forall|j: int|
                    0 <= j < old(self).actors@.len() && j != i
                        ==> #[trigger] final (self).actors@[j] == old(self).actors@[j]
            },
    {
        let iopt = self.find_actor(bot_id);
        if iopt.is_none() {
            return None;
        }
        let i = iopt.unwrap();
        proof {
            old(self).lemma_actor_ix_is(bot_id, i as int);
        }
        if !self.actors[i].alive {
            return None;
        }
        let dropped: bool = match (ground_here, ground_ahead) {
            (Some(yh), Some(ya)) => yh - ya > self.cfg.bot_max_drop_mm,
            _ => false,
        };
        let fwd = if dropped {
            Vec3i { x: 0, y: 0, z: 0 }
        } else {
            steer.fwd
        };
        let ghost olda = self.actors@;
        let mut a = self.actors.remove(i);
        proof {
            assert(0 <= (self.cfg.gravity_mm_s2 as u64) * (dt as u64) <= 100_000_000)
                by (nonlinear_arith)
                requires
                    0 <= self.cfg.gravity_mm_s2 <= 100_000,
                    0 < dt <= 1000,
                ;
            vstd::arithmetic::div_mod::lemma_div_pos_is_pos(
                (self.cfg.gravity_mm_s2 * dt) as int,
                1000,
            );
            vstd::arithmetic::div_mod::lemma_div_nonincreasing(
                (self.cfg.gravity_mm_s2 * dt) as int,
                1000,
            );
        }
        let grav_step: i64 = (((self.cfg.gravity_mm_s2 as u64) * (dt as u64)) / 1000) as i64;
        let fall: i64 = a.vy_mm_s - grav_step;
        a.vy_mm_s = if fall >= -200_000 {
            fall
        } else {
            -200_000
        };
        let vy = a.vy_mm_s;
        self.actors.insert(i, a);
        proof {
            crate::world::lemma_remove_insert_is_update(olda, i as int, a);
            assert(self.actors@ == olda.update(i as int, a));
            lemma_same_ids_keep_wf(olda, self.actors@, self.cfg);
            assert forall|j: int| 0 <= j < self.actors@.len() implies (
            #[trigger] self.actors@[j]).hist_at_most(self.sim_time_ms as int) by {
                assert(self.actors@[j].history == olda[j].history);
                assert(olda[j].hist_at_most(self.sim_time_ms as int));
            }
        }
        proof {
            assert(-200_000_000 <= fwd.x * self.cfg.bot_move_speed_mm_s <= 200_000_000
                && -200_000_000 <= fwd.z * self.cfg.bot_move_speed_mm_s <= 200_000_000)
                by (nonlinear_arith)
                requires
                    -2000 <= fwd.x <= 2000 && -2000 <= fwd.z <= 2000,
                    0 <= self.cfg.bot_move_speed_mm_s <= 100_000,
                ;
            assert(-200_000_000_000 <= fwd.x * self.cfg.bot_move_speed_mm_s * dt
                <= 200_000_000_000 && -200_000_000_000 <= fwd.z * self.cfg.bot_move_speed_mm_s * dt
                <= 200_000_000_000) by (nonlinear_arith)
                requires
                    -200_000_000 <= fwd.x * self.cfg.bot_move_speed_mm_s <= 200_000_000,
                    -200_000_000 <= fwd.z * self.cfg.bot_move_speed_mm_s <= 200_000_000,
                    0 < dt <= 1000,
                ;
            assert(-200_000_000 <= steer.strafe.x * self.cfg.bot_move_speed_mm_s <= 200_000_000
                && -200_000_000 <= steer.strafe.z * self.cfg.bot_move_speed_mm_s <= 200_000_000)
                by (nonlinear_arith)
                requires
                    -2000 <= steer.strafe.x <= 2000 && -2000 <= steer.strafe.z <= 2000,
                    0 <= self.cfg.bot_move_speed_mm_s <= 100_000,
                ;
            assert(-200_000_000_000 <= steer.strafe.x * self.cfg.bot_move_speed_mm_s
                * self.cfg.bot_strafe_mul_milli <= 200_000_000_000 && -200_000_000_000
                <= steer.strafe.z * self.cfg.bot_move_speed_mm_s * self.cfg.bot_strafe_mul_milli
                <= 200_000_000_000) by (nonlinear_arith)
                requires
                    -200_000_000 <= steer.strafe.x * self.cfg.bot_move_speed_mm_s <= 200_000_000,
                    -200_000_000 <= steer.strafe.z * self.cfg.bot_move_speed_mm_s <= 200_000_000,
                    0 <= self.cfg.bot_strafe_mul_milli <= 1000,
                ;
            assert(-200_000_000_000_000 <= steer.strafe.x * self.cfg.bot_move_speed_mm_s
                * self.cfg.bot_strafe_mul_milli * dt <= 200_000_000_000_000 && -200_000_000_000_000
                <= steer.strafe.z * self.cfg.bot_move_speed_mm_s * self.cfg.bot_strafe_mul_milli
                * dt <= 200_000_000_000_000) by (nonlinear_arith)
                requires
                    -200_000_000_000 <= steer.strafe.x * self.cfg.bot_move_speed_mm_s
                        * self.cfg.bot_strafe_mul_milli <= 200_000_000_000,
                    -200_000_000_000 <= steer.strafe.z * self.cfg.bot_move_speed_mm_s
                        * self.cfg.bot_strafe_mul_milli <= 200_000_000_000,
                    0 < dt <= 1000,
                ;
            assert(-400_000_000 <= vy * dt <= 400_000_000) by (nonlinear_arith)
                requires
                    -400_000 <= vy <= 400_000,
                    0 < dt <= 1000,
                ;
        }
        let fx = crate::motion::sdivq_exec(fwd.x * self.cfg.bot_move_speed_mm_s * (dt as i64), 1_000_000);
        let fz = crate::motion::sdivq_exec(fwd.z * self.cfg.bot_move_speed_mm_s * (dt as i64), 1_000_000);
        let sx = crate::motion::sdivq_exec(
            steer.strafe.x * self.cfg.bot_move_speed_mm_s * self.cfg.bot_strafe_mul_milli * (
            dt as i64),
            1_000_000_000,
        );
        let sz = crate::motion::sdivq_exec(
            steer.strafe.z * self.cfg.bot_move_speed_mm_s * self.cfg.bot_strafe_mul_milli * (
            dt as i64),
            1_000_000_000,
        );
        let dy = crate::motion::sdivq_exec(vy * (dt as i64), 1000);
        proof {
            if dropped {
                assert(fwd.x == 0 && fwd.z == 0);
                vstd::arithmetic::div_mod::lemma_div_of0(1_000_000);
                assert(fwd.x * self.cfg.bot_move_speed_mm_s * dt == 0) by (nonlinear_arith)
                    requires
                        fwd.x == 0,
                    ;
                assert(fwd.z * self.cfg.bot_move_speed_mm_s * dt == 0) by (nonlinear_arith)
                    requires
                        fwd.z == 0,
                    ;
                assert(fx == 0 && fz == 0);
            }
        }
        Some(crate::motion::MoveCmd {
            disp: Vec3i { x: fx + sx, y: dy, z: fz + sz },
            disable_snap: false,
        })
    }
}

impl World {
    /// The nearest living human within the bot's fire range among actors
    /// `i..` (squared eye-to-eye distance; earliest minimum wins).
    pub open spec fn best_prey(self, bot_id: u64, origin: Vec3i, i: int) -> Option<(u64, int)>
        decreases self.actors@.len() - i,
    {
        if i < 0 || i >= self.actors@.len() {
            None
        } else {
            let rest = self.best_prey(bot_id, origin, i + 1);
            let a = self.actors@[i];
            if a.id != bot_id && a.alive && a.kind == ActorKind::Human && dist2(a.pos, origin)
                <= self.cfg.bot_fire_range_mm * self.cfg.bot_fire_range_mm {
                match rest {
                    None => Some((a.id, dist2(a.pos, origin))),
                    Some((rid, rd)) => {
                        if dist2(a.pos, origin) <= rd {
                            Some((a.id, dist2(a.pos, origin)))
                        } else {
                            rest
                        }
                    },
                }
            } else {
                rest
            }
        }
    }

    /// A chosen prey is witnessed in the registry: a living human in range
    /// at the reported squared distance.
    pub proof fn lemma_best_prey_witness(self, bot_id: u64, origin: Vec3i, i: int)
        requires
            0 <= i,
            self.best_prey(bot_id, origin, i) is Some,
        ensures
            exists|k: int|
                i <= k < self.actors@.len() && (#[trigger] self.actors@[k]).id == self.best_prey(
                    bot_id,
                    origin,
                    i,
                )->Some_0.0 && self.actors@[k].alive && self.actors@[k].kind == ActorKind::Human
                    && self.actors@[k].id != bot_id && dist2(self.actors@[k].pos, origin)
                    == self.best_prey(bot_id, origin, i)->Some_0.1,
        decreases self.actors@.len() - i,
    {
        let r = self.best_prey(bot_id, origin, i);
        let a = self.actors@[i];
        let rest = self.best_prey(bot_id, origin, i + 1);
        let eligible = a.id != bot_id && a.alive && a.kind == ActorKind::Human && dist2(
            a.pos,
            origin,
        ) <= self.cfg.bot_fire_range_mm * self.cfg.bot_fire_range_mm;
        if eligible && (rest is None || dist2(a.pos, origin) <= rest->Some_0.1) {
            assert(i <= i < self.actors@.len() && self.actors@[i].id == r->Some_0.0
                && self.actors@[i].alive && self.actors@[i].kind == ActorKind::Human
                && self.actors@[i].id != bot_id && dist2(self.actors@[i].pos, origin)
                == r->Some_0.1);
        } else {
            self.lemma_best_prey_witness(bot_id, origin, i + 1);
            let k = choose|k: int|
                i + 1 <= k < self.actors@.len() && (#[trigger] self.actors@[k]).id
                    == rest->Some_0.0 && self.actors@[k].alive && self.actors@[k].kind
                    == ActorKind::Human && self.actors@[k].id != bot_id && dist2(
                    self.actors@[k].pos,
                    origin,
                ) == rest->Some_0.1;
            assert(i <= k < self.actors@.len() && self.actors@[k].id == r->Some_0.0
                && self.actors@[k].alive && self.actors@[k].kind == ActorKind::Human
                && self.actors@[k].id != bot_id && dist2(self.actors@[k].pos, origin)
                == r->Some_0.1);
        }
    }

    /// Plans a bot's shot for this tick. Nothing is planned (and nothing
    /// fires) unless the bot is alive, in the Combat state, unprotected and
    /// its weapon ready; an empty magazine starts a reload instead. The
    /// nearest living human in range becomes the focus target, and only
    /// after the reaction delay of continuous focus does the plan carry a
    /// direct-aim ray at the target's eye.
    pub fn bot_plan_shot(&mut self, bot_id: u64, dt: u32) -> (r: Option<BotShot>)
        requires
            old(self).wf(),
        ensures
            final (self).wf(),
            *final (self) == (World { actors: final (self).actors, ..*old(self) }),
            final (self).actors@.len() == old(self).actors@.len(),
            forall|j: int|
                0 <= j < old(self).actors@.len() && old(self).actors@[j].id != bot_id
                    ==> #[trigger] final (self).actors@[j] == old(self).actors@[j],
            r is Some ==> old(self).has_actor(bot_id) && {
                let a = old(self).actors@[old(self).actor_ix(bot_id)];
                &&& a.alive
                &&& a.bot.fsm == BotFsm::Combat
                &&& a.weapon.ready_spec()
                &&& a.protect_ms == 0
                &&& is_milli_dir(r->Some_0.dir)
                &&& in_world(r->Some_0.origin)
                &&& 0 < r->Some_0.dist <= 1_000_000
                &&& old(self).best_prey(bot_id, r->Some_0.origin, 0) is Some
                &&& old(self).best_prey(bot_id, r->Some_0.origin, 0)->Some_0.0 == r->Some_0.target
            },
            !old(self).has_actor(bot_id) ==> r is None && final (self).actors == old(self).actors,
            old(self).has_actor(bot_id) ==> {
                let i = old(self).actor_ix(bot_id);
                let a = old(self).actors@[i];
                &&& (!a.alive || a.bot.fsm != BotFsm::Combat || a.weapon.reload_ms > 0
                    || a.weapon.cooldown_ms > 0 || a.protect_ms > 0) ==> r is None && final (self).actors == old(self).actors
                &&& (a.alive && a.bot.fsm == BotFsm::Combat && a.weapon.reload_ms == 0
                    && a.weapon.cooldown_ms == 0 && a.protect_ms == 0) ==> {
                    &&& a.weapon.ammo == 0 ==> r is None && final (self).actors@ == old(self).actors@.update(
                        i,
                        Actor {
                            weapon: WeaponStatus {
                                reload_ms: old(self).cfg.reload_ms,
                                ..a.weapon
                            },
                            ..a
                        },
                    )
                    &&& a.weapon.ammo > 0 ==> {
                        let origin = eye_point(a.pos, old(self).cfg.eye_height_mm);
                        let prey = old(self).best_prey(bot_id, origin, 0);
                        &&& prey is None ==> r is None && final (self).actors == old(self).actors
                        &&& prey matches Some((pid, pd2)) ==> {
                            let nf = if a.bot.focus_target == Some(pid) {
                                if a.bot.focus_ms < 0xffff_ffff - dt {
                                    (a.bot.focus_ms + dt) as u32
                                } else {
                                    0xffff_ffffu32
                                }
                            } else {
                                0u32
                            };
                            &&& final (self).actors@ == old(self).actors@.update(
                                i,
                                Actor {
                                    bot: BotControl {
                                        focus_target: Some(pid),
                                        focus_ms: nf,
                                        ..a.bot
                                    },
                                    ..a
                                },
                            )
                            &&& nf < old(self).cfg.bot_react_ms ==> r is None
                            &&& nf >= old(self).cfg.bot_react_ms ==> {
                                let v = old(self).actor_ix(pid);
                                let vic = old(self).actors@[v];
                                let teye = eye_point(vic.pos, old(self).cfg.eye_height_mm);
                                &&& (vic.protect_ms > 0 || dist2(teye, origin) == 0) ==> r
                                    is None
                                &&& (vic.protect_ms == 0 && dist2(teye, origin) > 0) ==> {
                                    &&& r matches Some(s)
                                    &&& r->Some_0.target == pid
                                    &&& r->Some_0.origin == origin
                                    &&& r->Some_0.dir == aim_vec(origin, teye)
                                    &&& r->Some_0.dist == dist_capped(dist2(teye, origin))
                                }
                            }
                        }
                    }
                }
            },
    {
        let iopt = self.find_actor(bot_id);
        if iopt.is_none() {
            return None;
        }
        let i = iopt.unwrap();
        proof {
            old(self).lemma_actor_ix_is(bot_id, i as int);
        }
        if !self.actors[i].alive {
            return None;
        }
        if !(self.actors[i].bot.fsm == BotFsm::Combat) {
            return None;
        }
        if self.actors[i].weapon.reload_ms > 0 || self.actors[i].weapon.cooldown_ms > 0 {
            return None;
        }
        if self.actors[i].protect_ms > 0 {
            return None;
        }
        let ghost olda = self.actors@;
        if self.actors[i].weapon.ammo == 0 {
            // Start a reload instead of firing.
            let mut a = self.actors.remove(i);
            a.weapon.start_reload(self.cfg.reload_ms, self.cfg.magazine_size);
            self.actors.insert(i, a);
            proof {
                crate::world::lemma_remove_insert_is_update(olda, i as int, a);
                assert(self.actors@ == olda.update(i as int, a));
                lemma_same_ids_keep_wf(olda, self.actors@, self.cfg);
                assert forall|j: int| 0 <= j < self.actors@.len() implies (
                #[trigger] self.actors@[j]).hist_at_most(self.sim_time_ms as int) by {
                    assert(self.actors@[j].history == olda[j].history);
                    assert(olda[j].hist_at_most(self.sim_time_ms as int));
                }
            }
            return None;
        }
        let bpos = self.actors[i].pos;
        let eye = self.cfg.eye_height_mm;
        let origin = Vec3i { x: bpos.x, y: clamp_eye(bpos.y + eye), z: bpos.z };
        proof {
            assert(origin == eye_point(old(self).actors@[i as int].pos, self.cfg.eye_height_mm));
        }
        // Nearest living human in fire range.
        let mut best: Option<(u64, i64)> = None;
        let n = self.actors.len();
        let mut k: usize = n;
        while k > 0
            invariant
                self.wf(),
                *self == *old(self),
                0 <= k <= n,
                n == self.actors@.len(),
                in_world(origin),
                match best {
                    Some((rid, rd)) => self.best_prey(bot_id, origin, k as int) == Some(
                        (rid, rd as int),
                    ) && 0 <= rd,
                    None => self.best_prey(bot_id, origin, k as int) is None,
                },
            decreases k,
        {
            k = k - 1;
            let a = &self.actors[k];
            if a.id != bot_id && a.alive && a.kind == ActorKind::Human {
                let d2 = dist2_exec(a.pos, origin);
                if d2 <= sq_mm(self.cfg.bot_fire_range_mm) {
                    match best {
                        Some((_rid, rd)) => {
                            if d2 <= rd {
                                best = Some((a.id, d2));
                            }
                        },
                        None => {
                            best = Some((a.id, d2));
                        },
                    }
                }
            }
        }
        if best.is_none() {
            return None;
        }
        let (tid, bd2) = best.unwrap();
        proof {
            assert(old(self).best_prey(bot_id, origin, 0) == Some((tid, bd2 as int)));
        }
        // Reaction delay: a continuous focus on the same target is required
        // before the first shot.
        let ghost olda2 = self.actors@;
        let mut a = self.actors.remove(i);
        if a.bot.focus_target == Some(tid) {
            a.bot.focus_ms = if a.bot.focus_ms < 0xffff_ffff - dt {
                a.bot.focus_ms + dt
            } else {
                0xffff_ffff
            };
        } else {
            a.bot.focus_target = Some(tid);
            a.bot.focus_ms = 0;
        }
        let focused = a.bot.focus_ms >= self.cfg.bot_react_ms;
        self.actors.insert(i, a);
        proof {
            crate::world::lemma_remove_insert_is_update(olda2, i as int, a);
            assert(self.actors@ == olda2.update(i as int, a));
            assert(a == (Actor {
                bot: BotControl {
                    focus_target: Some(tid),
                    focus_ms: a.bot.focus_ms,
                    ..old(self).actors@[i as int].bot
                },
                ..old(self).actors@[i as int]
            }));
            lemma_same_ids_keep_wf(olda2, self.actors@, self.cfg);
            assert forall|j: int| 0 <= j < self.actors@.len() implies (
            #[trigger] self.actors@[j]).hist_at_most(self.sim_time_ms as int) by {
                assert(self.actors@[j].history == olda2[j].history);
                assert(olda2[j].hist_at_most(self.sim_time_ms as int));
            }
        }
        if !focused {
            return None;
        }
        // The target must exist, be alive and unprotected.
        proof {
            old(self).lemma_best_prey_witness(bot_id, origin, 0);
        }
        let ghost kw: int = choose|k: int|
            0 <= k < old(self).actors@.len() && (#[trigger] old(self).actors@[k]).id == tid
                && old(self).actors@[k].alive && old(self).actors@[k].kind == ActorKind::Human
                && old(self).actors@[k].id != bot_id && dist2(old(self).actors@[k].pos, origin)
                == bd2 as int;
        proof {
            assert(old(self).actors@[kw].id == tid);
            assert(kw != i as int);
            assert(self.actors@[kw] == old(self).actors@[kw]);
            old(self).lemma_actor_ix_is(tid, kw);
        }
        let topt = self.find_actor(tid);
        if topt.is_none() {
            proof {
                assert(self.actors@[kw].id == tid);
                assert(self.has_actor(tid));
                assert(false);
            }
            return None;
        }
        let ti = topt.unwrap();
        proof {
            assert(self.actors@[ti as int].id == tid);
            assert(old(self).actors@[ti as int].id == tid);
            old(self).lemma_actor_ix_is(tid, ti as int);
            assert(ti as int == kw);
            assert(self.actors@[ti as int] == old(self).actors@[ti as int]);
            assert(self.actors@[ti as int].alive);
        }
        if !self.actors[ti].alive || self.actors[ti].protect_ms > 0 {
            return None;
        }
        let tpos = self.actors[ti].pos;
        let teye = Vec3i { x: tpos.x, y: clamp_eye(tpos.y + eye), z: tpos.z };
        proof {
            assert(teye == eye_point(
                old(self).actors@[old(self).actor_ix(tid)].pos,
                self.cfg.eye_height_mm,
            ));
        }
        // Direct aim at the target's eye.
        let dx = teye.x - origin.x;
        let dy = teye.y - origin.y;
        let dz = teye.z - origin.z;
        let d2 = dist2_exec(teye, origin);
        if d2 == 0 {
            return None;
        }
        let lw = isqrt64(d2 as u64);
        proof {
            assert(lw <= 4_000_000) by (nonlinear_arith)
                requires
                    lw * lw <= 12_000_000_000_000u64,
                ;
        }
        let l: i64 = lw as i64;
        proof {
            if lw == 0 {
                assert((lw + 1) * (lw + 1) == 1) by (nonlinear_arith)
                    requires
                        lw == 0u64,
                    ;
                assert(false);
            }
            assert(l >= 1);
            assert(dx * dx <= d2 && dy * dy <= d2 && dz * dz <= d2) by (nonlinear_arith)
                requires
                    d2 == dx * dx + dy * dy + dz * dz,
                ;
            assert(dx <= l && -dx <= l && dy <= l && -dy <= l && dz <= l && -dz <= l)
                by (nonlinear_arith)
                requires
                    dx * dx <= d2 && dy * dy <= d2 && dz * dz <= d2,
                    l >= 0,
                    d2 < (l + 1) * (l + 1),
                ;
            assert(-4_000_000_000 <= dx * 1000 <= 4_000_000_000 && -4_000_000_000 <= dy * 1000
                <= 4_000_000_000 && -4_000_000_000 <= dz * 1000 <= 4_000_000_000)
                by (nonlinear_arith)
                requires
                    -4_000_000 <= dx <= 4_000_000 && -4_000_000 <= dy <= 4_000_000 && -4_000_000
                        <= dz <= 4_000_000,
                ;
            crate::motion::lemma_scaled_bounded(dx as int, l as int);
            crate::motion::lemma_scaled_bounded(dy as int, l as int);
            crate::motion::lemma_scaled_bounded(dz as int, l as int);
        }
        let dir = Vec3i {
            x: crate::motion::sdivq_exec(dx * 1000, l),
            y: crate::motion::sdivq_exec(dy * 1000, l),
            z: crate::motion::sdivq_exec(dz * 1000, l),
        };
        let dist: i64 = if l > 1_000_000 {
            1_000_000
        } else {
            l
        };
        Some(BotShot { target: tid, origin, dir, dist })
    }

    /// Commits a planned bot shot, given what the present-world ray first
    /// struck (occlusion) and the impact distance for the tracer. Nothing
    /// is consumed or emitted unless the bot is still alive, in Combat and
    /// ready; otherwise one round is consumed, the bot cooldown starts, the
    /// fire notification goes out, and the target takes bot damage only if
    /// the ray was not blocked by anything but the target itself.
    pub fn bot_commit_shot(&mut self, bot_id: u64, shot: BotShot, occl: Option<RayHit>, impact: Option<i64>) -> (ev: Vec<EventMsg>)
        requires
            old(self).wf(),
            in_world(shot.origin),
            is_milli_dir(shot.dir),
            0 < shot.dist <= 1_000_000,
            impact matches Some(t) ==> 0 <= t <= 1_000_000,
            shot.target != bot_id,
        ensures
            final (self).wf(),
            *final (self) == (World {
                actors: final (self).actors,
                scores: final (self).scores,
                ..*old(self)
            }),
            !(old(self).has_actor(bot_id) && {
                let a = old(self).actors@[old(self).actor_ix(bot_id)];
                a.alive && a.bot.fsm == BotFsm::Combat && a.weapon.ready_spec() && a.protect_ms
                    == 0
            }) ==> final (self).actors == old(self).actors && final (self).scores == old(self).scores && ev@.len() == 0,
            (old(self).has_actor(bot_id) && {
                let a = old(self).actors@[old(self).actor_ix(bot_id)];
                a.alive && a.bot.fsm == BotFsm::Combat && a.weapon.ready_spec() && a.protect_ms
                    == 0
            }) ==> {
                let i = old(self).actor_ix(bot_id);
                let a = old(self).actors@[i];
                &&& final (self).actors@[i].weapon.ammo == a.weapon.ammo - 1
                &&& final (self).actors@[i].weapon.cooldown_ms == old(self).cfg.bot_fire_cooldown_ms
                &&& ev@.len() >= 1
                &&& ev@[0] == (EventMsg::Fire {
                    id: bot_id,
                    origin: shot.origin,
                    dir: shot.dir,
                    hit: match impact {
                        Some(t) => Some(ray_point_spec(shot.origin, shot.dir, t as int)),
                        None => None,
                    },
                })
                &&& accepted_target(Some((shot.target, shot.dist)), occl) is None ==> forall|
                    j: int,
                |
                    0 <= j < old(self).actors@.len() ==> (#[trigger] final (self).actors@[j]).hp
                        == old(self).actors@[j].hp && final (self).actors@[j].alive == old(self).actors@[j].alive
                &&& (accepted_target(Some((shot.target, shot.dist)), occl) is Some && old(self).damage_lands(shot.target)) ==> {
                    let v = old(self).actor_ix(shot.target);
                    let vic = old(self).actors@[v];
                    let b = Self::damaged_actor(
                        vic,
                        old(self).cfg.bot_damage,
                        old(self).cfg.respawn_delay_ms,
                    );
                    &&& final (self).actors@[v].hp == b.hp
                    &&& final (self).actors@[v].alive == b.alive
                    &&& ev@.contains(
                        EventMsg::Hit { target_id: shot.target, new_hp: b.hp, by: bot_id },
                    )
                    &&& b.hp == 0 ==> ev@.contains(
                        EventMsg::Death { target_id: shot.target, by: bot_id },
                    )
                }
            },
    {
        let iopt = self.find_actor(bot_id);
        if iopt.is_none() {
            return Vec::new();
        }
        let i = iopt.unwrap();
        proof {
            old(self).lemma_actor_ix_is(bot_id, i as int);
        }
        if !self.actors[i].alive || !(self.actors[i].bot.fsm == BotFsm::Combat) {
            return Vec::new();
        }
        if !self.actors[i].weapon.ready() || self.actors[i].protect_ms > 0 {
            return Vec::new();
        }
        let ghost olda = self.actors@;
        let mut a = self.actors.remove(i);
        a.weapon.consume_shot(self.cfg.bot_fire_cooldown_ms, self.cfg.magazine_size);
        self.actors.insert(i, a);
        proof {
            crate::world::lemma_remove_insert_is_update(olda, i as int, a);
            assert(self.actors@ == olda.update(i as int, a));
            lemma_same_ids_keep_wf(olda, self.actors@, self.cfg);
            assert forall|j: int| 0 <= j < self.actors@.len() implies (
            #[trigger] self.actors@[j]).hist_at_most(self.sim_time_ms as int) by {
                assert(self.actors@[j].history == olda[j].history);
                assert(olda[j].hist_at_most(self.sim_time_ms as int));
            }
        }
        let mut ev: Vec<EventMsg> = Vec::new();
        let hit_point: Option<Vec3i> = match impact {
            Some(t) => Some(ray_point(shot.origin, shot.dir, t)),
            None => None,
        };
        ev.push(EventMsg::Fire { id: bot_id, origin: shot.origin, dir: shot.dir, hit: hit_point });
        let ghost mid = *self;
        let accepted: bool = match occl {
            None => true,
            Some(RayHit::Actor { id }) => id == shot.target,
            Some(RayHit::Obstacle) => false,
        };
        if accepted {
            let dmg = self.cfg.bot_damage;
            let mut ev2 = self.damage_actor(shot.target, bot_id, dmg);
            ev.append(&mut ev2);
            proof {
                if old(self).damage_lands(shot.target) {
                    let v0 = old(self).actor_ix(shot.target);
                    assert(old(self).actors@[v0].id == shot.target);
                    assert(v0 != i as int);
                    assert(mid.actors@[v0] == old(self).actors@[v0]);
                    mid.lemma_actor_ix_is(shot.target, v0);
                    assert(mid.damage_lands(shot.target));
                    let vic = old(self).actors@[v0];
                    let b = World::damaged_actor(
                        vic,
                        old(self).cfg.bot_damage,
                        old(self).cfg.respawn_delay_ms,
                    );
                    assert(self.actors@ == mid.actors@.update(v0, b));
                    assert(self.actors@[v0] == b);
                    assert(ev@[1] == (EventMsg::Hit {
                        target_id: shot.target,
                        new_hp: b.hp,
                        by: bot_id,
                    }));
                    assert(ev@.contains(
                        EventMsg::Hit { target_id: shot.target, new_hp: b.hp, by: bot_id },
                    ));
                    if b.hp == 0 {
                        assert(ev@[2] == (EventMsg::Death { target_id: shot.target, by: bot_id }));
                        assert(ev@.contains(
                            EventMsg::Death { target_id: shot.target, by: bot_id },
                        ));
                    }
                } else {
                    if mid.damage_lands(shot.target) {
                        let vm = mid.actor_ix(shot.target);
                        assert(mid.actors@[vm].id == shot.target);
                        assert(vm != i as int);
                        assert(mid.actors@[vm] == old(self).actors@[vm]);
                        old(self).lemma_actor_ix_is(shot.target, vm);
                        assert(false);
                    }
                    assert(self.actors == mid.actors);
                }
            }
        }
        proof {
            if !accepted {
                assert(self.actors == mid.actors);
            }
            assert(mid.actors@[i as int].weapon.ammo == olda[i as int].weapon.ammo - 1);
            if accepted && mid.damage_lands(shot.target) {
                let v = mid.actor_ix(shot.target);
                assert(mid.actors@[v].id == shot.target);
                assert(v != i as int);
                assert(self.actors@[i as int] == mid.actors@[i as int]);
            } else if accepted {
                assert(self.actors == mid.actors);
            }
        }
        ev
    }
}

/// The forward part of a bot displacement component.
pub open spec fn bot_fwd_part(c: int, cfg: SimConfig, dt: u32) -> int {
    crate::motion::sdivq(c * cfg.bot_move_speed_mm_s * dt, 1_000_000)
}

/// The strafe part of a bot displacement component.
pub open spec fn bot_strafe_part(c: int, cfg: SimConfig, dt: u32) -> int {
    crate::motion::sdivq(c * cfg.bot_move_speed_mm_s * cfg.bot_strafe_mul_milli * dt, 1_000_000_000)
}

/// The square of a positive length, bounded by the world scale.
fn sq_mm(v: i64) -> (r: i64)
    requires
        0 < v <= 1_000_000,
    ensures
        r == v * v,
        0 < r <= 1_000_000_000_000,
{
    assert(0 < v * v <= 1_000_000_000_000) by (nonlinear_arith)
        requires
            0 < v <= 1_000_000,
        ;
    v * v
}

/// The eye point of an actor standing at `pos`.
pub open spec fn eye_point(pos: Vec3i, eye: i64) -> Vec3i {
    Vec3i {
        x: pos.x,
        y: crate::world::clamp_world_spec(pos.y + eye) as i64,
        z: pos.z,
    }
}

/// The direct unit-scale aim from `o` at `t` (meaningful when they differ).
pub open spec fn aim_vec(o: Vec3i, t: Vec3i) -> Vec3i {
    let l = crate::math::sqrt_floor(dist2(t, o));
    Vec3i {
        x: crate::motion::sdivq((t.x - o.x) * 1000, l) as i64,
        y: crate::motion::sdivq((t.y - o.y) * 1000, l) as i64,
        z: crate::motion::sdivq((t.z - o.z) * 1000, l) as i64,
    }
}

/// The eye-to-eye distance, capped at the ray length the world admits.
pub open spec fn dist_capped(l2: int) -> int {
    if crate::math::sqrt_floor(l2) > 1_000_000 {
        1_000_000
    } else {
        crate::math::sqrt_floor(l2)
    }
}

/// Clamps an eye height into the world box.
fn clamp_eye(v: i64) -> (r: i64)
    requires
        -1_100_000 <= v <= 1_100_000,
    ensures
        r == crate::world::clamp_world_spec(v as int),
        -1_000_000 <= r <= 1_000_000,
{
    if v > 1_000_000 {
        1_000_000
    } else if v < -1_000_000 {
        -1_000_000
    } else {
        v
    }
}

/// Whether the list carries this id.
fn contains_id(v: &Vec<u64>, id: u64) -> (r: bool)
    ensures
        r == v@.contains(id),
{
    let mut i: usize = 0;
    while i < v.len()
        invariant
            0 <= i <= v@.len(),
            forall|j: int| 0 <= j < i ==> v@[j] != id,
        decreases v@.len() - i,
    {
        if v[i] == id {
            proof {
                assert(v@[i as int] == id);
            }
            return true;
        }
        i = i + 1;
    }
    proof {
        if v@.contains(id) {
            let j = choose|j: int| 0 <= j < v@.len() && v@[j] == id;
            assert(v@[j] != id);
        }
    }
    false
}

} // verus!
