//! The actor model: one record per human or bot, with its kinematic state,
//! health, weapon, timers, bot controller and position history.

use vstd::prelude::*;
use crate::config::SimConfig;
use crate::history::PosSample;
use crate::history::hist_wf;
use crate::math::Vec3i;
use crate::math::in_world;
use crate::math::PI_MRAD;
use crate::types::ActorKind;
use crate::types::InputFrame;
use crate::weapon::WeaponStatus;

verus! {

/// The bot controller's states: roam, close or open distance, fight, and
/// the grace period after losing sight.
#[derive(Clone, Copy, PartialEq, Eq, Structural, Debug)]
pub enum BotFsm {
    Wander,
    Seek,
    Combat,
    Lost,
}

/// Mutable bot-controller state beside the FSM state itself.
#[derive(Clone, Copy, PartialEq, Eq, Structural, Debug)]
pub struct BotControl {
    pub fsm: BotFsm,
    pub lost_timer_ms: u32,
    pub target: Option<u64>,
    pub los_missing_ms: u32,
    pub focus_target: Option<u64>,
    pub focus_ms: u32,
    pub wander_dest: Option<Vec3i>,
    pub wander_timer_ms: u32,
    pub strafe_left: bool,
    pub strafe_timer_ms: u32,
}

impl BotControl {
    /// The idle controller a fresh actor starts with.
    pub fn idle() -> (r: BotControl)
        ensures
            r == BotControl::idle_spec(),
    {
        BotControl {
            fsm: BotFsm::Wander,
            lost_timer_ms: 0,
            target: None,
            los_missing_ms: 0,
            focus_target: None,
            focus_ms: 0,
            wander_dest: None,
            wander_timer_ms: 0,
            strafe_left: false,
            strafe_timer_ms: 0,
        }
    }

    /// The idle controller, as a value.
    pub open spec fn idle_spec() -> BotControl {
        BotControl {
            fsm: BotFsm::Wander,
            lost_timer_ms: 0,
            target: None,
            los_missing_ms: 0,
            focus_target: None,
            focus_ms: 0,
            wander_dest: None,
            wander_timer_ms: 0,
            strafe_left: false,
            strafe_timer_ms: 0,
        }
    }

    /// Positions the controller may point at stay inside the world.
    pub open spec fn wf(self) -> bool {
        self.wander_dest matches Some(p) ==> in_world(p)
    }
}

/// A client input frame the core has accepted: planar intent clamped to the
/// unit square (scaled by 1000) and canonical angles.
pub open spec fn input_wf(f: InputFrame) -> bool {
    &&& -1000 <= f.mv[0] <= 1000
    &&& -1000 <= f.mv[1] <= 1000
    &&& -PI_MRAD <= f.yaw <= PI_MRAD
    &&& -PI_MRAD <= f.pitch <= PI_MRAD
}

/// One simulated actor.
#[derive(Clone, PartialEq, Eq, Debug)]
pub struct Actor {
    pub id: u64,
    pub kind: ActorKind,
    pub pos: Vec3i,
    pub yaw_mrad: i64,
    pub vy_mm_s: i64,
    pub grounded: bool,
    pub hp: u16,
    pub alive: bool,
    pub weapon: WeaponStatus,
    pub protect_ms: u32,
    pub respawn_pending: bool,
    pub respawn_ms: u32,
    pub last_input: Option<InputFrame>,
    pub last_fire_seq: u32,
    pub jump_buffer_ms: u32,
    pub coyote_ms: u32,
    pub jump_cooldown_ms: u32,
    pub air_jumps: u8,
    pub history: Vec<PosSample>,
    pub bot: BotControl,
}

impl Actor {
    /// Health stays in `0..=100`, the magazine never overflows, a live actor
    /// has health left, and every stored quantity stays in its fixed-point
    /// range.
    pub open spec fn wf(self, cfg: SimConfig) -> bool {
        &&& self.hp <= 100
        &&& self.alive ==> self.hp >= 1
        &&& self.weapon.wf(cfg.magazine_size)
        &&& in_world(self.pos)
        &&& -PI_MRAD <= self.yaw_mrad <= PI_MRAD
        &&& -200_000 <= self.vy_mm_s <= 200_000
        &&& hist_wf(self.history@)
        &&& self.last_input matches Some(f) ==> input_wf(f)
        &&& self.bot.wf()
    }

    /// The newest history sample is no later than `now`.
    pub open spec fn hist_at_most(self, now: int) -> bool {
        self.history@.len() > 0 ==> self.history@[self.history@.len() - 1].t_ms <= now
    }

    /// A freshly (re)spawned actor: full health and magazine, protected,
    /// grounded at `pos`.
    pub fn spawn(id: u64, kind: ActorKind, pos: Vec3i, cfg: &SimConfig) -> (r: Actor)
        requires
            cfg.wf(),
            in_world(pos),
        ensures
            r.wf(*cfg),
            r.id == id,
            r.kind == kind,
            r.pos == pos,
            r.hp == 100,
            r.alive,
            r.weapon == (WeaponStatus { ammo: cfg.magazine_size, cooldown_ms: 0, reload_ms: 0 }),
            r.protect_ms == cfg.protect_ms,
            !r.respawn_pending,
            r.history@.len() == 0,
            r.last_input is None,
            r.last_fire_seq == 0,
            r.bot == BotControl::idle_spec(),
    {
        Actor {
            id,
            kind,
            pos,
            yaw_mrad: 0,
            vy_mm_s: 0,
            grounded: true,
            hp: 100,
            alive: true,
            weapon: WeaponStatus::full(cfg.magazine_size),
            protect_ms: cfg.protect_ms,
            respawn_pending: false,
            respawn_ms: 0,
            last_input: None,
            last_fire_seq: 0,
            jump_buffer_ms: 0,
            coyote_ms: 0,
            jump_cooldown_ms: 0,
            air_jumps: 0,
            history: Vec::new(),
            bot: BotControl::idle(),
        }
    }
}

} // verus!
