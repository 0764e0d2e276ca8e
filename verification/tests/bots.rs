//! The bot state machine, its fire path and its movement decisions.

use shooter_core::actor::BotFsm;
use shooter_core::config::SimConfig;
use shooter_core::fire::RayHit;
use shooter_core::math::Vec3i;
use shooter_core::types::{ActorKind, EventMsg};
use shooter_core::world::World;

fn test_cfg() -> SimConfig {
    let mut cfg = SimConfig::standard();
    cfg.protect_ms = 0;
    cfg.spawn_jitter_mm = 0;
    cfg.desired_bots = 1;
    cfg
}

/// A world with one human and one bot, fifteen metres apart (inside the
/// desired distance band, so a visible target means Combat).
fn bot_world() -> (World, u64, u64) {
    let mut w = World::new(test_cfg());
    w.connect(1);
    let ev = w.ensure_bots();
    assert!(matches!(ev[0], EventMsg::Spawn { kind: ActorKind::Bot, .. }));
    let bot_id = w.cfg.bot_id_start;
    assert!(w.find_actor(bot_id).is_some());
    w.post_physics(1, Vec3i { x: 0, y: 0, z: 0 }, true);
    w.post_physics(bot_id, Vec3i { x: 0, y: 0, z: 15_000 }, true);
    (w, 1, bot_id)
}

#[test]
fn visible_target_in_band_means_combat() {
    let (mut w, human, bot) = bot_world();
    let visible = vec![human];
    let best = w.bot_perceive(bot, 16, &visible);
    assert_eq!(best.map(|b| b.0), Some(human));
    let bi = w.find_actor(bot).unwrap();
    assert_eq!(w.actors[bi].bot.fsm, BotFsm::Combat);
    assert_eq!(w.actors[bi].bot.target, Some(human));
}

#[test]
fn out_of_band_distances_mean_seek() {
    let (mut w, human, bot) = bot_world();
    // Too close.
    w.post_physics(bot, Vec3i { x: 0, y: 0, z: 5_000 }, true);
    w.bot_perceive(bot, 16, &vec![human]);
    assert_eq!(w.actors[w.find_actor(bot).unwrap()].bot.fsm, BotFsm::Seek);
    // Too far (but within detection).
    w.post_physics(bot, Vec3i { x: 0, y: 0, z: 25_000 }, true);
    w.bot_perceive(bot, 16, &vec![human]);
    assert_eq!(w.actors[w.find_actor(bot).unwrap()].bot.fsm, BotFsm::Seek);
}

#[test]
fn losing_sight_decays_combat_to_lost_to_wander_without_fire() {
    let (mut w, human, bot) = bot_world();
    w.bot_perceive(bot, 16, &vec![human]);
    assert_eq!(w.actors[w.find_actor(bot).unwrap()].bot.fsm, BotFsm::Combat);
    // No visible target: after the grace period the bot goes Lost.
    let empty: Vec<u64> = Vec::new();
    let mut steps = 0;
    while w.actors[w.find_actor(bot).unwrap()].bot.fsm == BotFsm::Combat {
        w.bot_perceive(bot, 100, &empty);
        steps += 1;
        assert!(steps < 100);
    }
    let bi = w.find_actor(bot).unwrap();
    assert_eq!(w.actors[bi].bot.fsm, BotFsm::Lost);
    // The grace period is 600 ms at 100 ms a step.
    assert_eq!(steps, 6);
    // While not in Combat, the bot emits no fire events at all.
    assert!(w.bot_plan_shot(bot, 100).is_none());
    // Lost decays to Wander after its fixed duration.
    let mut steps = 0;
    while w.actors[w.find_actor(bot).unwrap()].bot.fsm == BotFsm::Lost {
        w.bot_perceive(bot, 100, &empty);
        assert!(w.bot_plan_shot(bot, 100).is_none());
        steps += 1;
        assert!(steps < 100);
    }
    assert_eq!(w.actors[w.find_actor(bot).unwrap()].bot.fsm, BotFsm::Wander);
    assert_eq!(steps, 20);
}

#[test]
fn combat_bot_fires_after_reaction_delay() {
    let (mut w, human, bot) = bot_world();
    w.bot_perceive(bot, 16, &vec![human]);
    // The reaction delay keeps the first shots back.
    assert!(w.bot_plan_shot(bot, 100).is_none());
    assert!(w.bot_plan_shot(bot, 100).is_none());
    assert!(w.bot_plan_shot(bot, 100).is_none());
    // Focus has lasted past the reaction time: the shot is planned.
    let shot = w.bot_plan_shot(bot, 100).unwrap();
    assert_eq!(shot.target, human);
    assert!((14_000..=16_000).contains(&shot.dist));
    // Committing with a clear ray damages the human by the bot damage.
    let ev = w.bot_commit_shot(bot, shot, None, Some(shot.dist));
    assert!(matches!(ev[0], EventMsg::Fire { id, .. } if id == bot));
    assert!(ev.contains(&EventMsg::Hit { target_id: human, new_hp: 99, by: bot }));
    let hi = w.find_actor(human).unwrap();
    assert_eq!(w.actors[hi].hp, 99);
    // A blocked ray leaves the target untouched (after the fire cooldown).
    w.weapon_protect_tick(200);
    let shot = w.bot_plan_shot(bot, 100).unwrap();
    let ev = w.bot_commit_shot(bot, shot, Some(RayHit::Obstacle), None);
    assert!(matches!(ev[0], EventMsg::Fire { hit: None, .. }));
    assert!(!ev.iter().any(|e| matches!(e, EventMsg::Hit { .. })));
    assert_eq!(w.actors[w.find_actor(human).unwrap()].hp, 99);
}

#[test]
fn wander_samples_stay_in_reach_and_accepting_sets_destination() {
    let (mut w, _human, bot) = bot_world();
    let need = w.bot_wander_tick(bot, 16);
    assert!(need);
    let samples = w.bot_wander_samples(bot);
    assert_eq!(samples.len(), w.cfg.bot_wander_retry);
    let bp = w.actors[w.find_actor(bot).unwrap()].pos;
    for s in samples.iter() {
        assert!((s.x - bp.x).abs() <= w.cfg.bot_wander_radius_mm);
        assert!((s.z - bp.z).abs() <= w.cfg.bot_wander_radius_mm);
    }
    // The ground-projected point the tick driver chose becomes the
    // destination and restarts the replan timer.
    let dest = Vec3i { x: 5_000, y: 0, z: 5_000 };
    w.bot_wander_accept(bot, Some(dest));
    let bi = w.find_actor(bot).unwrap();
    assert_eq!(w.actors[bi].bot.wander_dest, Some(dest));
    assert_eq!(w.actors[bi].bot.wander_timer_ms, w.cfg.bot_wander_replan_ms);
    assert!(!w.bot_wander_tick(bot, 16));
}

#[test]
fn steering_probes_and_cliff_avoidance() {
    let (mut w, human, bot) = bot_world();
    // Far away: the bot seeks, so it moves forward toward the target.
    w.post_physics(bot, Vec3i { x: 0, y: 0, z: 30_000 }, true);
    w.bot_perceive(bot, 16, &vec![human]);
    let steer = w.bot_steer(bot, 16).unwrap();
    assert!(steer.fwd.z < 0);
    // A predicted drop beyond the threshold suppresses the forward part.
    let cmd = w
        .bot_move_finish(bot, 16, steer, Some(0), Some(-5_000))
        .unwrap();
    assert_eq!(cmd.disp.x, 0);
    assert_eq!(cmd.disp.z, 0);
    // Level ground ahead: the bot advances.
    let steer = w.bot_steer(bot, 16).unwrap();
    let cmd = w.bot_move_finish(bot, 16, steer, Some(0), Some(0)).unwrap();
    assert!(cmd.disp.z < 0);
}
