//! The round state machine and the scaffold lifecycle.

use shooter_core::config::SimConfig;
use shooter_core::math::Vec3i;
use shooter_core::types::{EventMsg, ScoreEntry};
use shooter_core::world::{RoundPhase, World};

fn test_cfg() -> SimConfig {
    let mut cfg = SimConfig::standard();
    cfg.protect_ms = 0;
    cfg.spawn_jitter_mm = 0;
    cfg.round_time_ms = 3_000;
    cfg.round_end_delay_ms = 1_000;
    cfg
}

#[test]
fn clock_strictly_decreases_and_no_early_end() {
    let mut w = World::new(test_cfg());
    w.connect(1);
    let mut prev = w.round.time_left_ms;
    for _ in 0..2 {
        let ev = w.round_update(1_000);
        assert!(w.round.time_left_ms < prev);
        prev = w.round.time_left_ms;
        // No score reached the threshold and the clock still runs: no
        // round-end notification may appear.
        assert!(ev.is_empty());
        assert_eq!(w.round.phase, RoundPhase::Active);
    }
    // The clock reaches zero: the round ends now, without a winner.
    let ev = w.round_update(1_000);
    assert_eq!(w.round.phase, RoundPhase::Ending);
    assert_eq!(
        ev[0],
        EventMsg::RoundEnd { winner_id: None, next_in_sec: 1 }
    );
}

#[test]
fn win_threshold_ends_the_round_with_a_winner() {
    let mut w = World::new(test_cfg());
    w.connect(1);
    w.connect(2);
    // Reaching the kill threshold ends the round at once.
    let i = w.scores.iter().position(|e| e.id == 1).unwrap();
    w.scores[i] = ScoreEntry { id: 1, kills: 10, deaths: 0 };
    let ev = w.round_update(16);
    assert_eq!(w.round.phase, RoundPhase::Ending);
    assert_eq!(
        ev[0],
        EventMsg::RoundEnd { winner_id: Some(1), next_in_sec: 1 }
    );
    // After the delay the next round starts: humans reset, scores zeroed.
    let ev = w.round_update(1_000);
    assert_eq!(w.round.phase, RoundPhase::Active);
    assert_eq!(w.round.time_left_ms, 3_000);
    assert!(matches!(ev.last(), Some(EventMsg::RoundStart { time_left_sec: 3 })));
    // The cleared table is rebroadcast just before the round starts.
    match &ev[ev.len() - 2] {
        EventMsg::Score(t) => {
            assert!(t.iter().all(|r| r.kills == 0 && r.deaths == 0));
            assert_eq!(t.len(), 2);
        },
        _ => panic!("a score table was expected before the round start"),
    }
    // Every human was respawned with its own notification.
    assert!(ev.iter().any(|e| matches!(e, EventMsg::Spawn { id: 1, .. })));
    assert!(ev.iter().any(|e| matches!(e, EventMsg::Spawn { id: 2, .. })));
    for e in w.scores.iter() {
        assert_eq!(e.kills, 0);
        assert_eq!(e.deaths, 0);
    }
    for a in w.actors.iter() {
        assert!(a.alive);
        assert_eq!(a.hp, 100);
        assert_eq!(a.weapon.ammo, 12);
    }
}

#[test]
fn owner_never_exceeds_the_scaffold_limit() {
    let mut w = World::new(test_cfg());
    w.connect(5);
    let p = Vec3i { x: 50_000, y: 0, z: 50_000 };
    let mut sids: Vec<u64> = Vec::new();
    for _ in 0..3 {
        let ev = w.place_scaffold(5, p);
        assert_eq!(ev.len(), 1);
        match &ev[0] {
            EventMsg::ScaffoldSpawn { sid, owner, .. } => {
                assert_eq!(*owner, 5);
                sids.push(*sid);
            },
            _ => panic!("a spawn notification was expected"),
        }
    }
    assert_eq!(w.scaffolds.len(), 3);
    // One past the limit: exactly the oldest piece despawns first.
    let ev = w.place_scaffold(5, p);
    assert_eq!(ev.len(), 2);
    assert_eq!(ev[0], EventMsg::ScaffoldDespawn { sid: sids[0] });
    assert!(matches!(ev[1], EventMsg::ScaffoldSpawn { .. }));
    assert_eq!(w.scaffolds.len(), 3);
    assert!(w.scaffolds.iter().all(|sc| sc.sid != sids[0]));
    // Another owner is unaffected by the first owner's limit.
    w.connect(6);
    let ev = w.place_scaffold(6, p);
    assert_eq!(ev.len(), 1);
    assert_eq!(w.scaffolds.len(), 4);
}

#[test]
fn scaffold_placement_keeps_owner_clearance() {
    let mut w = World::new(test_cfg());
    w.connect(5);
    w.post_physics(5, Vec3i { x: 0, y: 0, z: 0 }, true);
    // A request right on top of the owner is pushed out to the clearance.
    let ev = w.place_scaffold(5, Vec3i { x: 100, y: 0, z: 0 });
    match &ev[0] {
        EventMsg::ScaffoldSpawn { pos, .. } => {
            let d2 = (pos.x as i128) * (pos.x as i128) + (pos.z as i128) * (pos.z as i128);
            let min = (300 + 1000 + 60) as i128;
            // Within a unit of the exact clearance (integer rounding).
            assert!(d2 >= (min - 2) * (min - 2));
        },
        _ => panic!("a spawn notification was expected"),
    }
}

#[test]
fn scaffolds_expire_on_schedule() {
    let mut w = World::new(test_cfg());
    w.connect(5);
    let p = Vec3i { x: 50_000, y: 0, z: 50_000 };
    w.place_scaffold(5, p);
    let sid = w.scaffolds[0].sid;
    // Not yet expired.
    let ev = w.scaffold_tick(5_000);
    assert!(ev.is_empty());
    assert_eq!(w.scaffolds.len(), 1);
    // Life runs out: the piece despawns with a notification.
    let ev = w.scaffold_tick(5_000);
    assert_eq!(ev, vec![EventMsg::ScaffoldDespawn { sid }]);
    assert!(w.scaffolds.is_empty());
}
