//! The weapon state machine, the fire gate's sequence deduplication, and
//! the magazine/reload scenario.

use shooter_core::config::SimConfig;
use shooter_core::fire::FireVerdict;
use shooter_core::types::EventMsg;
use shooter_core::weapon::WeaponStatus;
use shooter_core::world::World;

fn test_cfg() -> SimConfig {
    let mut cfg = SimConfig::standard();
    cfg.protect_ms = 0;
    cfg.fire_cooldown_ms = 0;
    cfg.spawn_jitter_mm = 0;
    cfg
}

#[test]
fn weapon_tick_counts_down_and_refills() {
    let mut w = WeaponStatus { ammo: 0, cooldown_ms: 50, reload_ms: 1600 };
    assert!(!w.tick(1000, 12));
    assert_eq!(w.cooldown_ms, 0);
    assert_eq!(w.reload_ms, 600);
    assert_eq!(w.ammo, 0);
    assert!(w.tick(600, 12));
    assert_eq!(w.reload_ms, 0);
    assert_eq!(w.ammo, 12);
    assert!(w.ready());
}

#[test]
fn fire_sequence_number_is_deduplicated() {
    let mut w = World::new(test_cfg());
    w.connect(7);
    let (v1, _) = w.fire_gate(7, Some(5));
    assert_eq!(v1, FireVerdict::Shot);
    let ammo_after_first = w.actors[0].weapon.ammo;
    assert_eq!(ammo_after_first, 11);
    // The same sequence number again: nothing is consumed.
    let (v2, ev2) = w.fire_gate(7, Some(5));
    assert_eq!(v2, FireVerdict::Duplicate);
    assert_eq!(w.actors[0].weapon.ammo, 11);
    assert!(ev2.is_empty());
    // A fresh sequence number fires again.
    let (v3, _) = w.fire_gate(7, Some(6));
    assert_eq!(v3, FireVerdict::Shot);
    assert_eq!(w.actors[0].weapon.ammo, 10);
}

#[test]
fn magazine_empties_then_reloads_full() {
    let mut w = World::new(test_cfg());
    w.connect(9);
    // Twelve shots with increasing sequence numbers and no cooldown.
    for seq in 1..=12u32 {
        let (v, _) = w.fire_gate(9, Some(seq));
        assert_eq!(v, FireVerdict::Shot);
    }
    assert_eq!(w.actors[0].weapon.ammo, 0);
    // The next request starts a reload instead of firing.
    let (v, ev) = w.fire_gate(9, Some(13));
    assert_eq!(v, FireVerdict::StartedReload);
    assert_eq!(
        ev[0],
        EventMsg::Ammo { id: 9, ammo: 0, reloading: true }
    );
    assert_eq!(w.actors[0].weapon.reload_ms, 1600);
    // After the full reload duration the magazine is full again.
    let ev = w.weapon_protect_tick(1600);
    assert!(ev.contains(&EventMsg::Ammo { id: 9, ammo: 12, reloading: false }));
    assert_eq!(w.actors[0].weapon.ammo, 12);
    assert_eq!(w.actors[0].weapon.reload_ms, 0);
}

#[test]
fn gate_refuses_while_protected_or_dead() {
    let mut cfg = test_cfg();
    cfg.protect_ms = 2000;
    let mut w = World::new(cfg);
    w.connect(1);
    let (v, ev) = w.fire_gate(1, Some(1));
    assert_eq!(v, FireVerdict::NotReady);
    assert!(ev.is_empty());
    assert_eq!(w.actors[0].weapon.ammo, 12);
    // An unknown actor is refused too.
    let (v, _) = w.fire_gate(999, Some(1));
    assert_eq!(v, FireVerdict::NotReady);
}

#[test]
fn health_and_ammo_stay_in_bounds() {
    let mut w = World::new(test_cfg());
    w.connect(1);
    w.connect(2);
    w.ensure_bots();
    for seq in 1..=30u32 {
        w.fire_gate(1, Some(seq));
        w.weapon_protect_tick(16);
        w.respawn_tick(16);
        for a in w.actors.iter() {
            assert!(a.hp <= 100);
            assert!(a.weapon.ammo <= w.cfg.magazine_size);
        }
    }
}
