//! Hit-scan geometry and the lag-compensated, occlusion-validated shot.

use shooter_core::config::SimConfig;
use shooter_core::combat::{best_candidate, ray_cylinder_hit, HitCandidate};
use shooter_core::fire::{FireVerdict, RayHit};
use shooter_core::math::Vec3i;
use shooter_core::types::EventMsg;
use shooter_core::world::World;

fn test_cfg() -> SimConfig {
    let mut cfg = SimConfig::standard();
    cfg.protect_ms = 0;
    cfg.fire_cooldown_ms = 0;
    cfg.spawn_jitter_mm = 0;
    cfg.lag_comp_ms = 0;
    cfg
}

#[test]
fn ray_meets_cylinder_head_on() {
    // Shooter at the origin facing negative z; the rewound target stands
    // ten metres away; radius 0.3 m, half height 0.9 m: the hit comes at
    // 9.7 m, where the ray enters the cylinder.
    let t = ray_cylinder_hit(
        Vec3i { x: 0, y: 0, z: 0 },
        Vec3i { x: 0, y: 0, z: -1000 },
        100_000,
        Vec3i { x: 0, y: 0, z: -10_000 },
        900,
        300,
    );
    assert_eq!(t, Some(9_700));
}

#[test]
fn ray_misses_sideways_and_over_the_top() {
    // Far off axis: no hit.
    assert!(ray_cylinder_hit(
        Vec3i { x: 0, y: 0, z: 0 },
        Vec3i { x: 0, y: 0, z: -1000 },
        100_000,
        Vec3i { x: 5_000, y: 0, z: -10_000 },
        900,
        300,
    )
    .is_none());
    // The target stands far above the ray's slab.
    assert!(ray_cylinder_hit(
        Vec3i { x: 0, y: 0, z: 0 },
        Vec3i { x: 0, y: 0, z: -1000 },
        100_000,
        Vec3i { x: 0, y: 5_000, z: -10_000 },
        900,
        300,
    )
    .is_none());
    // Out of range.
    assert!(ray_cylinder_hit(
        Vec3i { x: 0, y: 0, z: 0 },
        Vec3i { x: 0, y: 0, z: -1000 },
        5_000,
        Vec3i { x: 0, y: 0, z: -10_000 },
        900,
        300,
    )
    .is_none());
}

#[test]
fn closest_candidate_wins() {
    let o = Vec3i { x: 0, y: 0, z: 0 };
    let d = Vec3i { x: 0, y: 0, z: -1000 };
    let cands = vec![
        HitCandidate { id: 10, center: Vec3i { x: 0, y: 0, z: -20_000 } },
        HitCandidate { id: 11, center: Vec3i { x: 0, y: 0, z: -10_000 } },
        HitCandidate { id: 12, center: Vec3i { x: 9_000, y: 0, z: -10_000 } },
    ];
    let best = best_candidate(&cands, o, d, 100_000, 900, 300);
    assert_eq!(best, Some((11, 9_700)));
    let none = best_candidate(&Vec::new(), o, d, 100_000, 900, 300);
    assert!(none.is_none());
}

/// A world with a shooter and a target ten metres apart, histories sampled.
fn shooter_world() -> World {
    let mut w = World::new(test_cfg());
    w.connect(1);
    w.connect(2);
    w.post_physics(1, Vec3i { x: 0, y: 0, z: 0 }, true);
    w.post_physics(2, Vec3i { x: 0, y: 0, z: -10_000 }, true);
    w.sample_history(16);
    w
}

#[test]
fn accepted_shot_hits_and_damages() {
    let mut w = shooter_world();
    let origin = Vec3i { x: 0, y: 0, z: 0 };
    let dir = Vec3i { x: 0, y: 0, z: -1000 };
    let (v, _) = w.fire_gate(1, None);
    assert_eq!(v, FireVerdict::Shot);
    let target = w.shot_target(1, origin, dir);
    let (tid, t) = target.unwrap();
    assert_eq!(tid, 2);
    assert!((9_000..=10_000).contains(&t));
    let ev = w.apply_shot(1, origin, dir, target, None);
    assert!(matches!(ev[0], EventMsg::Fire { id: 1, hit: Some(_), .. }));
    assert!(ev.contains(&EventMsg::Hit { target_id: 2, new_hp: 65, by: 1 }));
    let ti = w.find_actor(2).unwrap();
    assert_eq!(w.actors[ti].hp, 65);
}

#[test]
fn blocked_shot_never_hits() {
    let mut w = shooter_world();
    let origin = Vec3i { x: 0, y: 0, z: 0 };
    let dir = Vec3i { x: 0, y: 0, z: -1000 };
    let (v, _) = w.fire_gate(1, None);
    assert_eq!(v, FireVerdict::Shot);
    let target = w.shot_target(1, origin, dir);
    assert!(target.is_some());
    // Static geometry stands strictly closer than the candidate: the ray
    // is blocked, so no hit notification and no damage.
    let ev = w.apply_shot(1, origin, dir, target, Some(RayHit::Obstacle));
    assert!(matches!(ev[0], EventMsg::Fire { id: 1, hit: None, .. }));
    for e in ev.iter() {
        assert!(!matches!(e, EventMsg::Hit { .. }));
        assert!(!matches!(e, EventMsg::Death { .. }));
    }
    let ti = w.find_actor(2).unwrap();
    assert_eq!(w.actors[ti].hp, 100);
    // Blocked by another actor's collider: refused just the same.
    let (v, _) = w.fire_gate(1, None);
    assert_eq!(v, FireVerdict::Shot);
    let target = w.shot_target(1, origin, dir);
    let ev = w.apply_shot(1, origin, dir, target, Some(RayHit::Actor { id: 77 }));
    for e in ev.iter() {
        assert!(!matches!(e, EventMsg::Hit { .. }));
    }
    assert_eq!(w.actors[w.find_actor(2).unwrap()].hp, 100);
}

#[test]
fn repeated_damage_kills_and_schedules_respawn() {
    let mut w = shooter_world();
    let origin = Vec3i { x: 0, y: 0, z: 0 };
    let dir = Vec3i { x: 0, y: 0, z: -1000 };
    let mut died = false;
    for _ in 0..3 {
        let (v, _) = w.fire_gate(1, None);
        assert_eq!(v, FireVerdict::Shot);
        let target = w.shot_target(1, origin, dir);
        let ev = w.apply_shot(1, origin, dir, target, None);
        if ev.iter().any(|e| matches!(e, EventMsg::Death { target_id: 2, by: 1 })) {
            died = true;
            // The kill carries the updated score table.
            let table = ev.iter().find_map(|e| match e {
                EventMsg::Score(t) => Some(t.clone()),
                _ => None,
            });
            let table = table.unwrap();
            assert_eq!(table.iter().find(|r| r.id == 1).unwrap().kills, 1);
            assert_eq!(table.iter().find(|r| r.id == 2).unwrap().deaths, 1);
        }
    }
    assert!(died);
    let ti = w.find_actor(2).unwrap();
    assert_eq!(w.actors[ti].hp, 0);
    assert!(!w.actors[ti].alive);
    assert!(w.actors[ti].respawn_pending);
    // Kill and death were credited (both are humans).
    let shooter_score = w.scores.iter().find(|e| e.id == 1).unwrap();
    assert_eq!(shooter_score.kills, 1);
    let victim_score = w.scores.iter().find(|e| e.id == 2).unwrap();
    assert_eq!(victim_score.deaths, 1);
    // The respawn delay brings the victim back with full state.
    let ev = w.respawn_tick(2_000);
    assert!(ev.iter().any(|e| matches!(e, EventMsg::Spawn { id: 2, .. })));
    let ti = w.find_actor(2).unwrap();
    assert!(w.actors[ti].alive);
    assert_eq!(w.actors[ti].hp, 100);
    assert_eq!(w.actors[ti].weapon.ammo, 12);
}
