//! Movement and kinematics: the pre-physics step that turns the latest
//! input into a kinematic move request (yaw-rotated planar intent, gravity,
//! buffered/coyote/air jumps), the aim ray from look angles, and the
//! post-physics write-back.

use vstd::prelude::*;
use crate::actor::Actor;
use crate::math::Vec3i;
use crate::math::in_world;
use crate::math::is_milli_dir;
use crate::math::sqrt_floor;
use crate::math::isqrt64;
use crate::math::sin_mrad;
use crate::math::cos_mrad;
use crate::math::sin_mrad_spec;
use crate::math::cos_mrad_spec;
use crate::math::PI_MRAD;
use crate::config::SimConfig;
use crate::world::World;
use crate::fire::lemma_same_ids_keep_wf;

verus! {

/// Signed division with truncation toward zero, for positive divisors.
pub open spec fn sdivq(a: int, b: int) -> int {
    if a >= 0 {
        a / b
    } else {
        -((-a) / b)
    }
}

/// Signed division with truncation toward zero.
pub fn sdivq_exec(a: i64, b: i64) -> (r: i64)
    requires
        b > 0,
        -9_000_000_000_000_000_000 <= a <= 9_000_000_000_000_000_000,
    ensures
        r == sdivq(a as int, b as int),
        a >= 0 ==> 0 <= r <= a,
        a < 0 ==> a <= r <= 0,
{
    let neg = a < 0;
    let m: u64 = if neg {
        (-a) as u64
    } else {
        a as u64
    };
    let q: u64 = m / (b as u64);
    proof {
        vstd::arithmetic::div_mod::lemma_div_pos_is_pos(m as int, b as int);
        vstd::arithmetic::div_mod::lemma_div_nonincreasing(m as int, b as int);
    }
    if neg {
        -(q as i64)
    } else {
        q as i64
    }
}

/// A kinematic move request for the physics collaborator: the displacement
/// of this tick in millimetres, and whether ground snapping must pause for
/// the tick (a jump was issued).
#[derive(Clone, Copy, PartialEq, Eq, Structural, Debug)]
pub struct MoveCmd {
    pub disp: Vec3i,
    pub disable_snap: bool,
}

/// The planar input rotated by the yaw and normalized back to the unit
/// scale, as a direction with no vertical part.
pub open spec fn rotated_dir_spec(mvx: int, mvz: int, yaw: int) -> Vec3i {
    let c = cos_mrad_spec(yaw);
    let s = sin_mrad_spec(yaw);
    let rx = sdivq(mvx * c + mvz * s, 1000);
    let rz = sdivq(-mvx * s + mvz * c, 1000);
    let l2 = rx * rx + rz * rz;
    if l2 == 0 {
        Vec3i { x: 0, y: 0, z: 0 }
    } else {
        let l = sqrt_floor(l2);
        Vec3i {
            x: sdivq(rx * 1000, l) as i64,
            y: 0,
            z: sdivq(rz * 1000, l) as i64,
        }
    }
}

/// Rotates the planar intent by the yaw and normalizes it.
pub fn rotated_dir(mvx: i64, mvz: i64, yaw: i64) -> (r: Vec3i)
    requires
        -1000 <= mvx <= 1000,
        -1000 <= mvz <= 1000,
        -PI_MRAD <= yaw <= PI_MRAD,
    ensures
        r == rotated_dir_spec(mvx as int, mvz as int, yaw as int),
        is_milli_dir(r),
        r.y == 0,
{
    let c = cos_mrad(yaw);
    let s = sin_mrad(yaw);
    proof {
        assert(-2_000_000 <= mvx * c <= 2_000_000 && -2_000_000 <= mvz * s <= 2_000_000
            && -2_000_000 <= mvx * s <= 2_000_000 && -2_000_000 <= mvz * c <= 2_000_000)
            by (nonlinear_arith)
            requires
                -1000 <= mvx <= 1000 && -1000 <= mvz <= 1000,
                -1000 <= c <= 1000 && -1000 <= s <= 1000,
            ;
    }
    let rx = sdivq_exec(mvx * c + mvz * s, 1000);
    let rz = sdivq_exec(-(mvx * s) + mvz * c, 1000);
    proof {
        assert(-(mvx * s) + mvz * c == -mvx * s + mvz * c) by (nonlinear_arith);
        assert(0 <= rx * rx <= 16_000_000 && 0 <= rz * rz <= 16_000_000) by (nonlinear_arith)
            requires
                -4000 <= rx <= 4000 && -4000 <= rz <= 4000,
            ;
    }
    let l2: i64 = rx * rx + rz * rz;
    if l2 == 0 {
        return Vec3i { x: 0, y: 0, z: 0 };
    }
    let lw: u64 = isqrt64(l2 as u64);
    proof {
        assert(lw <= 6000) by (nonlinear_arith)
            requires
                lw * lw <= 32_000_000u64,
            ;
    }
    let l: i64 = lw as i64;
    proof {
        assert(l * l <= l2 < (l + 1) * (l + 1));
        assert(l >= 1);
        assert(rx <= l && -rx <= l && rz <= l && -rz <= l) by (nonlinear_arith)
            requires
                rx * rx <= l2 && rz * rz <= l2,
                l >= 0,
                l2 < (l + 1) * (l + 1),
            ;
        assert(-4_000_000 <= rx * 1000 <= 4_000_000 && -4_000_000 <= rz * 1000 <= 4_000_000)
            by (nonlinear_arith)
            requires
                -4000 <= rx <= 4000 && -4000 <= rz <= 4000,
            ;
    }
    let x = sdivq_exec(rx * 1000, l);
    let z = sdivq_exec(rz * 1000, l);
    proof {
        lemma_scaled_bounded(rx as int, l as int);
        lemma_scaled_bounded(rz as int, l as int);
    }
    Vec3i { x, y: 0, z }
}

/// Scaling a component no longer than the length keeps the quotient within
/// the unit scale.
pub proof fn lemma_scaled_bounded(v: int, l: int)
    requires
        l >= 1,
        -l <= v <= l,
    ensures
        -1000 <= sdivq(v * 1000, l) <= 1000,
{
    if v >= 0 {
        vstd::arithmetic::div_mod::lemma_div_is_ordered(v * 1000, l * 1000, l);
        vstd::arithmetic::div_mod::lemma_div_by_multiple(1000, l);
        assert(v * 1000 <= l * 1000 && l * 1000 == l * 1000) by (nonlinear_arith)
            requires
                v <= l,
            ;
        vstd::arithmetic::div_mod::lemma_div_pos_is_pos(v * 1000, l);
        assert(v * 1000 >= 0) by (nonlinear_arith)
            requires
                v >= 0,
            ;
    } else {
        vstd::arithmetic::div_mod::lemma_div_is_ordered((-v) * 1000, l * 1000, l);
        vstd::arithmetic::div_mod::lemma_div_by_multiple(1000, l);
        assert((-v) * 1000 <= l * 1000) by (nonlinear_arith)
            requires
                -v <= l,
            ;
        vstd::arithmetic::div_mod::lemma_div_pos_is_pos((-v) * 1000, l);
        assert((-v) * 1000 >= 0) by (nonlinear_arith)
            requires
                v < 0,
            ;
    }
}

/// The aim direction of a look: pitch about the x axis, then yaw about the
/// y axis, applied to the forward axis (negative z).
pub open spec fn aim_dir_spec(yaw: int, pitch: int) -> Vec3i {
    let cp = cos_mrad_spec(pitch);
    let sp = sin_mrad_spec(pitch);
    let sy = sin_mrad_spec(yaw);
    let cy = cos_mrad_spec(yaw);
    Vec3i {
        x: sdivq(-(cp * sy), 1000) as i64,
        y: sp as i64,
        z: sdivq(-(cp * cy), 1000) as i64,
    }
}

/// The aim direction from the look angles, scaled by 1000.
pub fn aim_dir(yaw: i64, pitch: i64) -> (r: Vec3i)
    requires
        -PI_MRAD <= yaw <= PI_MRAD,
        -PI_MRAD <= pitch <= PI_MRAD,
    ensures
        r == aim_dir_spec(yaw as int, pitch as int),
        is_milli_dir(r),
{
    let cp = cos_mrad(pitch);
    let sp = sin_mrad(pitch);
    let sy = sin_mrad(yaw);
    let cy = cos_mrad(yaw);
    proof {
        assert(-1_000_000 <= cp * sy <= 1_000_000 && -1_000_000 <= cp * cy <= 1_000_000)
            by (nonlinear_arith)
            requires
                -1000 <= cp <= 1000 && -1000 <= sy <= 1000 && -1000 <= cy <= 1000,
            ;
    }
    let x = sdivq_exec(-(cp * sy), 1000);
    let z = sdivq_exec(-(cp * cy), 1000);
    Vec3i { x, y: sp, z }
}

/// The effective ground speed: the base speed, reduced under the run/aim
/// modifier.
pub open spec fn effective_speed(cfg: SimConfig, run: bool) -> int {
    if run {
        (cfg.move_speed_mm_s * cfg.run_speed_mul_milli) / 1000
    } else {
        cfg.move_speed_mm_s as int
    }
}

/// The outcome of the jump logic for one tick: the updated timers, vertical
/// velocity, air-jump count and whether a jump was issued now.
pub open spec fn jump_step(a: Actor, cfg: SimConfig, dt: u32) -> (Actor, bool) {
    let buf = if a.jump_buffer_ms >= dt {
        (a.jump_buffer_ms - dt) as u32
    } else {
        0u32
    };
    let coyote = if a.grounded {
        cfg.coyote_ms
    } else if a.coyote_ms >= dt {
        (a.coyote_ms - dt) as u32
    } else {
        0u32
    };
    let cd = if a.jump_cooldown_ms >= dt {
        (a.jump_cooldown_ms - dt) as u32
    } else {
        0u32
    };
    let fall = a.vy_mm_s - (cfg.gravity_mm_s2 * dt) / 1000;
    let vy1: int = if fall >= -200_000 {
        fall
    } else {
        -200_000
    };
    if buf > 0 && cd == 0 && (a.grounded || coyote > 0) {
        (
            Actor {
                vy_mm_s: cfg.jump_speed_mm_s,
                jump_buffer_ms: 0,
                coyote_ms: coyote,
                jump_cooldown_ms: cfg.jump_cooldown_ms,
                ..a
            },
            true,
        )
    } else if buf > 0 && cd == 0 && a.air_jumps < cfg.max_air_jumps {
        (
            Actor {
                vy_mm_s: cfg.jump_speed_mm_s,
                jump_buffer_ms: 0,
                coyote_ms: coyote,
                jump_cooldown_ms: cfg.jump_cooldown_ms,
                air_jumps: (a.air_jumps + 1) as u8,
                ..a
            },
            true,
        )
    } else {
        (
            Actor {
                vy_mm_s: vy1 as i64,
                jump_buffer_ms: buf,
                coyote_ms: coyote,
                jump_cooldown_ms: cd,
                ..a
            },
            false,
        )
    }
}

/// The displacement of this tick: the rotated planar intent at the
/// effective speed, plus the vertical velocity, both integrated over `dt`.
pub open spec fn move_disp_spec(dir: Vec3i, speed: int, vy: int, dt: u32) -> Vec3i {
    Vec3i {
        x: sdivq(dir.x * speed * dt, 1_000_000) as i64,
        y: sdivq(vy * dt, 1000) as i64,
        z: sdivq(dir.z * speed * dt, 1_000_000) as i64,
    }
}

impl World {
    /// Whether the movement step acts on this actor: it exists, lives and
    /// has an input frame.
    pub open spec fn movable(self, id: u64) -> bool {
        &&& self.has_actor(id)
        &&& self.actors@[self.actor_ix(id)].alive
        &&& self.actors@[self.actor_ix(id)].last_input is Some
    }

    /// The pre-physics movement step for one actor: turns its latest input
    /// into a kinematic move request and updates yaw, vertical velocity and
    /// the jump timers. A dead actor or one without an input is skipped for
    /// the tick.
    pub fn move_intent(&mut self, id: u64, dt: u32) -> (r: Option<MoveCmd>)
        requires
            old(self).wf(),
            0 < dt <= 1000,
        ensures
            final (self).wf(),
            *final (self) == (World { actors: final (self).actors, ..*old(self) }),
            final (self).actors@.len() == old(self).actors@.len(),
            !old(self).movable(id) ==> r is None && final (self).actors == old(self).actors,
            old(self).movable(id) ==> {
                let i = old(self).actor_ix(id);
                let a = old(self).actors@[i];
                let f = a.last_input->Some_0;
                let (a1, jumped) = jump_step(a, old(self).cfg, dt);
                let b = Actor { yaw_mrad: f.yaw, ..a1 };
                let dir = rotated_dir_spec(f.mv[0] as int, f.mv[1] as int, f.yaw as int);
                &&& final (self).actors@ == old(self).actors@.update(i, b)
                &&& r == Some(MoveCmd {
                    disp: move_disp_spec(
                        dir,
                        effective_speed(old(self).cfg, f.run),
                        b.vy_mm_s as int,
                        dt,
                    ),
                    disable_snap: jumped,
                })
            },
    {
        let iopt = self.find_actor(id);
        if iopt.is_none() {
            return None;
        }
        let i = iopt.unwrap();
        proof {
            old(self).lemma_actor_ix_is(id, i as int);
        }
        if !self.actors[i].alive {
            return None;
        }
        if self.actors[i].last_input.is_none() {
            return None;
        }
        let ghost olda = self.actors@;
        let mut a = self.actors.remove(i);
        let f = a.last_input.unwrap();
        // Timers and the jump decision.
        let buf: u32 = if a.jump_buffer_ms >= dt {
            a.jump_buffer_ms - dt
        } else {
            0
        };
        let coyote: u32 = if a.grounded {
            self.cfg.coyote_ms
        } else if a.coyote_ms >= dt {
            a.coyote_ms - dt
        } else {
            0
        };
        let cd: u32 = if a.jump_cooldown_ms >= dt {
            a.jump_cooldown_ms - dt
        } else {
            0
        };
        proof {
            assert(0 <= (self.cfg.gravity_mm_s2 as u64) * (dt as u64) <= 100_000_000)
                by (nonlinear_arith)
                requires
                    0 <= self.cfg.gravity_mm_s2 <= 100_000,
                    0 < dt <= 1000,
                ;
            vstd::arithmetic::div_mod::lemma_div_pos_is_pos(
                (self.cfg.gravity_mm_s2 * dt) as int,
                1000,
            );
            vstd::arithmetic::div_mod::lemma_div_nonincreasing(
                (self.cfg.gravity_mm_s2 * dt) as int,
                1000,
            );
        }
        let grav_step: i64 = (((self.cfg.gravity_mm_s2 as u64) * (dt as u64)) / 1000) as i64;
        let fall: i64 = a.vy_mm_s - grav_step;
        let vy1: i64 = if fall >= -200_000 {
            fall
        } else {
            -200_000
        };
        let jumped: bool;
        if buf > 0 && cd == 0 && (a.grounded || coyote > 0) {
            a.vy_mm_s = self.cfg.jump_speed_mm_s;
            a.jump_buffer_ms = 0;
            a.coyote_ms = coyote;
            a.jump_cooldown_ms = self.cfg.jump_cooldown_ms;
            jumped = true;
        } else if buf > 0 && cd == 0 && a.air_jumps < self.cfg.max_air_jumps {
            a.vy_mm_s = self.cfg.jump_speed_mm_s;
            a.jump_buffer_ms = 0;
            a.coyote_ms = coyote;
            a.jump_cooldown_ms = self.cfg.jump_cooldown_ms;
            a.air_jumps = a.air_jumps + 1;
            jumped = true;
        } else {
            a.vy_mm_s = vy1;
            a.jump_buffer_ms = buf;
            a.coyote_ms = coyote;
            a.jump_cooldown_ms = cd;
            jumped = false;
        }
        a.yaw_mrad = f.yaw;
        let dir = rotated_dir(f.mv[0], f.mv[1], f.yaw);
        proof {
            assert(0 <= (self.cfg.move_speed_mm_s as u64) * (self.cfg.run_speed_mul_milli as u64)
                <= 100_000_000) by (nonlinear_arith)
                requires
                    0 <= self.cfg.move_speed_mm_s <= 100_000,
                    0 <= self.cfg.run_speed_mul_milli <= 1000,
                ;
            vstd::arithmetic::div_mod::lemma_div_pos_is_pos(
                (self.cfg.move_speed_mm_s * self.cfg.run_speed_mul_milli) as int,
                1000,
            );
            vstd::arithmetic::div_mod::lemma_div_is_ordered(
                (self.cfg.move_speed_mm_s * self.cfg.run_speed_mul_milli) as int,
                100_000_000int,
                1000,
            );
        }
        let speed: i64 = if f.run {
            (((self.cfg.move_speed_mm_s as u64) * (self.cfg.run_speed_mul_milli as u64))
                / 1000) as i64
        } else {
            self.cfg.move_speed_mm_s
        };
        proof {
            assert(-200_000_000 <= dir.x * speed <= 200_000_000 && -200_000_000 <= dir.z * speed
                <= 200_000_000) by (nonlinear_arith)
                requires
                    -2000 <= dir.x <= 2000 && -2000 <= dir.z <= 2000,
                    0 <= speed <= 100_000,
                ;
            assert(-8_000_000_000_000 <= dir.x * speed * dt <= 8_000_000_000_000
                && -8_000_000_000_000 <= dir.z * speed * dt <= 8_000_000_000_000
                && -400_000_000 <= a.vy_mm_s * dt <= 400_000_000) by (nonlinear_arith)
                requires
                    -200_000_000 <= dir.x * speed <= 200_000_000,
                    -200_000_000 <= dir.z * speed <= 200_000_000,
                    0 < dt <= 1000,
                    -400_000 <= a.vy_mm_s <= 400_000,
                ;
        }
        let disp = Vec3i {
            x: sdivq_exec(dir.x * speed * (dt as i64), 1_000_000),
            y: sdivq_exec(a.vy_mm_s * (dt as i64), 1000),
            z: sdivq_exec(dir.z * speed * (dt as i64), 1_000_000),
        };
        self.actors.insert(i, a);
        proof {
            crate::world::lemma_remove_insert_is_update(olda, i as int, a);
            assert(self.actors@ == olda.update(i as int, a));
            lemma_same_ids_keep_wf(olda, self.actors@, self.cfg);
            assert forall|j: int| 0 <= j < self.actors@.len() implies (
            #[trigger] self.actors@[j]).hist_at_most(self.sim_time_ms as int) by {
                assert(self.actors@[j].history == olda[j].history);
                assert(olda[j].hist_at_most(self.sim_time_ms as int));
            }
        }
        Some(MoveCmd { disp, disable_snap: jumped })
    }

    /// The post-physics write-back for one actor: stores the resolved
    /// position and grounded flag; a grounded landing zeroes the vertical
    /// velocity and restores the air jumps.
    pub fn post_physics(&mut self, id: u64, pos: Vec3i, grounded: bool)
        requires
            old(self).wf(),
            in_world(pos),
        ensures
            final (self).wf(),
            *final (self) == (World { actors: final (self).actors, ..*old(self) }),
            !old(self).has_actor(id) ==> final (self).actors == old(self).actors,
            old(self).has_actor(id) ==> {
                let i = old(self).actor_ix(id);
                let a = old(self).actors@[i];
                let landed = grounded && a.vy_mm_s <= 0;
                let b = Actor {
                    pos,
                    grounded,
                    vy_mm_s: if landed {
                        0
                    } else {
                        a.vy_mm_s
                    },
                    air_jumps: if landed {
                        0
                    } else {
                        a.air_jumps
                    },
                    ..a
                };
                final (self).actors@ == old(self).actors@.update(i, b)
            },
    {
        let iopt = self.find_actor(id);
        if iopt.is_none() {
            return ;
        }
        let i = iopt.unwrap();
        proof {
            old(self).lemma_actor_ix_is(id, i as int);
        }
        let ghost olda = self.actors@;
        let mut a = self.actors.remove(i);
        a.pos = pos;
        if grounded && a.vy_mm_s <= 0 {
            a.vy_mm_s = 0;
            a.air_jumps = 0;
        }
        a.grounded = grounded;
        self.actors.insert(i, a);
        proof {
            crate::world::lemma_remove_insert_is_update(olda, i as int, a);
            assert(self.actors@ == olda.update(i as int, a));
            lemma_same_ids_keep_wf(olda, self.actors@, self.cfg);
            assert forall|j: int| 0 <= j < self.actors@.len() implies (
            #[trigger] self.actors@[j]).hist_at_most(self.sim_time_ms as int) by {
                assert(self.actors@[j].history == olda[j].history);
                assert(olda[j].hist_at_most(self.sim_time_ms as int));
            }
        }
    }
}

} // verus!
