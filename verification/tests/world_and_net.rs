//! Connections, reconciliation, input ingestion, movement and snapshots.

use shooter_core::config::SimConfig;
use shooter_core::hexkey::parse_hex_key;
use shooter_core::math::Vec3i;
use shooter_core::types::{ActorKind, ClientMessage, EventMsg, InputFrame};
use shooter_core::world::World;

fn test_cfg() -> SimConfig {
    let mut cfg = SimConfig::standard();
    cfg.protect_ms = 0;
    cfg.spawn_jitter_mm = 0;
    cfg
}

fn frame(seq: u32) -> InputFrame {
    InputFrame {
        seq,
        mv: [0, -1000],
        run: false,
        jump: false,
        fire: false,
        yaw: 0,
        pitch: 0,
    }
}

#[test]
fn connect_and_disconnect_round_trip() {
    let mut w = World::new(test_cfg());
    let ev = w.connect(42);
    assert!(matches!(ev[0], EventMsg::Spawn { id: 42, kind: ActorKind::Human, .. }));
    assert_eq!(ev[1], EventMsg::Ammo { id: 42, ammo: 12, reloading: false });
    assert!(matches!(ev[2], EventMsg::RoundStart { .. }));
    assert!(w.find_actor(42).is_some());
    // A second connect for the same id changes nothing.
    let ev = w.connect(42);
    assert!(ev.is_empty());
    assert_eq!(w.actors.len(), 1);
    let ev = w.disconnect(42);
    assert_eq!(ev, vec![EventMsg::Despawn { id: 42 }]);
    assert!(w.find_actor(42).is_none());
}

#[test]
fn reconciliation_matches_the_connection_set() {
    let mut w = World::new(test_cfg());
    w.connect(1);
    w.connect(2);
    w.ensure_bots();
    let bot_id = w.cfg.bot_id_start;
    // Client 2 is gone; client 3 is new.
    let current = vec![1u64, 3u64];
    w.sync_with_connections(&current);
    assert!(w.find_actor(1).is_some());
    assert!(w.find_actor(3).is_some());
    assert!(w.find_actor(2).is_none());
    // Bots survive reconciliation.
    assert!(w.find_actor(bot_id).is_some());
}

#[test]
fn latest_input_wins_and_movement_follows_it() {
    let mut w = World::new(test_cfg());
    w.connect(1);
    w.post_physics(1, Vec3i { x: 0, y: 0, z: 0 }, true);
    w.ingest_message(1, ClientMessage::Input(frame(1)));
    w.ingest_message(1, ClientMessage::Input(frame(2)));
    let i = w.find_actor(1).unwrap();
    assert_eq!(w.actors[i].last_input.unwrap().seq, 2);
    // Forward intent with yaw zero moves along negative z.
    let cmd = w.move_intent(1, 16).unwrap();
    assert!(cmd.disp.z < 0);
    assert_eq!(cmd.disp.x, 0);
    assert!(!cmd.disable_snap);
    // A grounded jump raises the vertical velocity and pauses snapping.
    let mut f = frame(3);
    f.jump = true;
    w.ingest_message(1, ClientMessage::Input(f));
    let cmd = w.move_intent(1, 16).unwrap();
    assert!(cmd.disable_snap);
    let i = w.find_actor(1).unwrap();
    assert_eq!(w.actors[i].vy_mm_s, w.cfg.jump_speed_mm_s);
    assert!(cmd.disp.y > 0);
}

#[test]
fn queued_requests_are_drained_once() {
    let mut w = World::new(test_cfg());
    w.connect(1);
    w.ingest_message(1, ClientMessage::PlaceScaffold { pos: Vec3i { x: 1, y: 2, z: 3 } });
    w.ingest_message(
        1,
        ClientMessage::Fire {
            origin: Vec3i { x: 0, y: 0, z: 0 },
            dir: Vec3i { x: 0, y: 0, z: -900 },
        },
    );
    // A zero direction cannot be normalized: that request is dropped.
    w.ingest_message(
        1,
        ClientMessage::Fire { origin: Vec3i { x: 0, y: 0, z: 0 }, dir: Vec3i { x: 0, y: 0, z: 0 } },
    );
    let fires = w.drain_fires();
    assert_eq!(fires.len(), 1);
    assert_eq!(fires[0].shooter, 1);
    assert_eq!(fires[0].dir, Vec3i { x: 0, y: 0, z: -1000 });
    assert!(w.drain_fires().is_empty());
    let places = w.drain_scaffold_requests();
    assert_eq!(places.len(), 1);
    assert_eq!(places[0].owner, 1);
    assert!(w.drain_scaffold_requests().is_empty());
}

#[test]
fn snapshot_reports_state_and_acks() {
    let mut w = World::new(test_cfg());
    w.connect(1);
    w.connect(2);
    w.post_physics(1, Vec3i { x: 100, y: 200, z: 300 }, true);
    w.ingest_message(1, ClientMessage::Input(frame(9)));
    w.sample_history(16);
    let snap = w.build_snapshot();
    assert_eq!(snap.tick, 1);
    assert_eq!(snap.players.len(), 2);
    let p1 = snap.players.iter().find(|p| p.id == 1).unwrap();
    assert_eq!(p1.pos, Vec3i { x: 100, y: 200, z: 300 });
    assert_eq!(p1.hp, 100);
    assert!(p1.alive);
    assert_eq!(p1.kind, ActorKind::Human);
    // Only the actor with an input frame is acknowledged.
    assert_eq!(snap.acks, vec![(1u64, 9u32)]);
}

#[test]
fn spawn_points_guide_respawns() {
    let mut w = World::new(test_cfg());
    w.add_spawn_point(Vec3i { x: 100_000, y: 0, z: 0 });
    w.add_spawn_point(Vec3i { x: -100_000, y: 0, z: 0 });
    w.connect(1);
    w.post_physics(1, Vec3i { x: 90_000, y: 0, z: 0 }, true);
    // The far point maximizes the minimum distance to the living actor.
    let p = w.choose_spawn_point();
    assert_eq!(p, Vec3i { x: -100_000, y: 0, z: 0 });
    // With the feature off the fixed default is used.
    let mut cfg = test_cfg();
    cfg.use_spawn_points = false;
    let w2 = World::new(cfg);
    assert_eq!(w2.choose_spawn_point(), w2.cfg.default_spawn);
}

#[test]
fn hex_keys_parse_exactly() {
    let key = "00112233445566778899aabbccddeeff00112233445566778899AABBCCDDEEFF";
    let v = parse_hex_key(key).unwrap();
    assert_eq!(v.len(), 32);
    assert_eq!(v[0], 0x00);
    assert_eq!(v[1], 0x11);
    assert_eq!(v[10], 0xaa);
    assert_eq!(v[31], 0xff);
    // The 0x prefix and surrounding whitespace are tolerated.
    let v2 = parse_hex_key(&format!("  0x{}\n", key)).unwrap();
    assert_eq!(v, v2);
    // Wrong length and stray characters are refused.
    assert!(parse_hex_key("0011").is_err());
    assert!(parse_hex_key(&key.replace('a', "g")).is_err());
    assert!(parse_hex_key("").is_err());
}
