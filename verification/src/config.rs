//! The typed configuration of the simulation: every tunable the rules read,
//! with the bounds that keep the fixed-point arithmetic safe.

use vstd::prelude::*;
use crate::math::Vec3i;
use crate::math::in_world;

verus! {

/// All tunables of the core. Lengths in millimetres, times in milliseconds,
/// angles in milliradians, speeds in millimetres per second.
#[derive(Clone, Copy, Debug)]
pub struct SimConfig {
    pub magazine_size: u16,
    pub reload_ms: u32,
    pub fire_cooldown_ms: u32,
    pub bot_fire_cooldown_ms: u32,
    pub damage: u16,
    pub bot_damage: u16,
    pub protect_ms: u32,
    pub respawn_delay_ms: u32,
    pub round_time_ms: u32,
    pub round_end_delay_ms: u32,
    pub win_kills: u32,
    pub lag_comp_ms: u32,
    pub hist_max_ms: u32,
    pub hit_half_height_mm: i64,
    pub hit_radius_mm: i64,
    pub fire_range_mm: i64,
    pub bot_fire_range_mm: i64,
    pub eye_height_mm: i64,
    pub move_speed_mm_s: i64,
    pub run_speed_mul_milli: i64,
    pub bot_move_speed_mm_s: i64,
    pub bot_strafe_mul_milli: i64,
    pub gravity_mm_s2: i64,
    pub jump_speed_mm_s: i64,
    pub jump_buffer_ms: u32,
    pub coyote_ms: u32,
    pub jump_cooldown_ms: u32,
    pub max_air_jumps: u8,
    pub bot_detect_mm: i64,
    pub bot_desired_near_mm: i64,
    pub bot_desired_far_mm: i64,
    pub bot_los_grace_ms: u32,
    pub bot_lost_ms: u32,
    pub bot_strafe_switch_ms: u32,
    pub bot_wander_replan_ms: u32,
    pub bot_react_ms: u32,
    pub bot_wander_radius_mm: i64,
    pub bot_probe_ahead_mm: i64,
    pub bot_max_drop_mm: i64,
    pub bot_wander_retry: usize,
    pub bot_turn_rate_mrad_s: i64,
    pub desired_bots: usize,
    pub scaffold_life_ms: u32,
    pub scaffold_limit: usize,
    pub scaffold_half_extent_mm: i64,
    pub scaffold_clear_margin_mm: i64,
    pub player_radius_mm: i64,
    pub spawn_jitter_mm: i64,
    pub use_spawn_points: bool,
    pub default_spawn: Vec3i,
    pub bot_id_start: u64,
    pub scaffold_id_start: u64,
}

impl SimConfig {
    /// Bounds that every tick step relies on for overflow freedom.
    pub open spec fn wf(self) -> bool {
        &&& 1 <= self.magazine_size <= 10_000
        &&& 0 < self.reload_ms <= 100_000_000
        &&& self.fire_cooldown_ms <= 100_000_000
        &&& self.bot_fire_cooldown_ms <= 100_000_000
        &&& self.protect_ms <= 100_000_000
        &&& self.respawn_delay_ms <= 100_000_000
        &&& 0 < self.round_time_ms <= 100_000_000
        &&& 0 < self.round_end_delay_ms <= 100_000_000
        &&& 1 <= self.win_kills <= 1_000_000
        &&& self.lag_comp_ms <= 100_000_000
        &&& self.hist_max_ms <= 100_000_000
        &&& self.lag_comp_ms <= self.hist_max_ms
        &&& 0 < self.hit_half_height_mm <= 100_000
        &&& 0 < self.hit_radius_mm <= 100_000
        &&& 0 < self.fire_range_mm <= 1_000_000
        &&& 0 < self.bot_fire_range_mm <= 1_000_000
        &&& 0 <= self.eye_height_mm <= 10_000
        &&& 0 <= self.move_speed_mm_s <= 100_000
        &&& 0 <= self.run_speed_mul_milli <= 1000
        &&& 0 <= self.bot_move_speed_mm_s <= 100_000
        &&& 0 <= self.bot_strafe_mul_milli <= 1000
        &&& 0 <= self.gravity_mm_s2 <= 100_000
        &&& 0 <= self.jump_speed_mm_s <= 100_000
        &&& self.jump_buffer_ms <= 100_000_000
        &&& self.coyote_ms <= 100_000_000
        &&& self.jump_cooldown_ms <= 100_000_000
        &&& 0 < self.bot_detect_mm <= 1_000_000
        &&& 0 < self.bot_desired_near_mm <= 1_000_000
        &&& 0 < self.bot_desired_far_mm <= 1_000_000
        &&& 0 < self.bot_los_grace_ms <= 100_000_000
        &&& 0 < self.bot_lost_ms <= 100_000_000
        &&& 0 < self.bot_strafe_switch_ms <= 100_000_000
        &&& 0 < self.bot_wander_replan_ms <= 100_000_000
        &&& 0 < self.bot_react_ms <= 100_000_000
        &&& 0 < self.bot_wander_radius_mm <= 100_000
        &&& 0 < self.bot_probe_ahead_mm <= 100_000
        &&& 0 < self.bot_max_drop_mm <= 100_000
        &&& 1 <= self.bot_wander_retry <= 1000
        &&& 0 < self.bot_turn_rate_mrad_s <= 1_000_000
        &&& self.desired_bots <= 1000
        &&& 0 < self.scaffold_life_ms <= 100_000_000
        &&& 1 <= self.scaffold_limit <= 1000
        &&& 0 < self.scaffold_half_extent_mm <= 100_000
        &&& 0 <= self.scaffold_clear_margin_mm <= 100_000
        &&& 0 < self.player_radius_mm <= 100_000
        &&& 0 <= self.spawn_jitter_mm <= 100_000
        &&& in_world(self.default_spawn)
        &&& self.bot_id_start >= 1
        &&& self.scaffold_id_start >= 1
    }

    /// The values the shipped server runs with.
    pub fn standard() -> (r: SimConfig)
        ensures
            r.wf(),
            r.magazine_size == 12,
            r.damage == 35,
            r.win_kills == 10,
            r.scaffold_limit == 3,
            r.lag_comp_ms == 100,
            r.desired_bots == 1,
    {
        SimConfig {
            magazine_size: 12,
            reload_ms: 1600,
            fire_cooldown_ms: 133,
            bot_fire_cooldown_ms: 180,
            damage: 35,
            bot_damage: 1,
            protect_ms: 2000,
            respawn_delay_ms: 2000,
            round_time_ms: 300_000,
            round_end_delay_ms: 5000,
            win_kills: 10,
            lag_comp_ms: 100,
            hist_max_ms: 1500,
            hit_half_height_mm: 600,
            hit_radius_mm: 300,
            fire_range_mm: 100_000,
            bot_fire_range_mm: 60_000,
            eye_height_mm: 700,
            move_speed_mm_s: 6000,
            run_speed_mul_milli: 600,
            bot_move_speed_mm_s: 5500,
            bot_strafe_mul_milli: 800,
            gravity_mm_s2: 9810,
            jump_speed_mm_s: 5200,
            jump_buffer_ms: 120,
            coyote_ms: 100,
            jump_cooldown_ms: 150,
            max_air_jumps: 1,
            bot_detect_mm: 30_000,
            bot_desired_near_mm: 10_000,
            bot_desired_far_mm: 22_000,
            bot_los_grace_ms: 600,
            bot_lost_ms: 2000,
            bot_strafe_switch_ms: 2000,
            bot_wander_replan_ms: 4000,
            bot_react_ms: 250,
            bot_wander_radius_mm: 16_000,
            bot_probe_ahead_mm: 1200,
            bot_max_drop_mm: 700,
            bot_wander_retry: 8,
            bot_turn_rate_mrad_s: 6000,
            desired_bots: 1,
            scaffold_life_ms: 10_000,
            scaffold_limit: 3,
            scaffold_half_extent_mm: 1000,
            scaffold_clear_margin_mm: 60,
            player_radius_mm: 300,
            spawn_jitter_mm: 6000,
            use_spawn_points: true,
            default_spawn: Vec3i { x: 0, y: 10_000, z: 5000 },
            bot_id_start: 1_000_000_000_000,
            scaffold_id_start: 2_000_000_000_000,
        }
    }
}

} // verus!
