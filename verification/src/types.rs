//! Protocol records: client requests, server events, snapshots and scores.
//!
//! Positions are in millimetres, directions are unit vectors scaled by 1000,
//! angles in milliradians, times in milliseconds. The transport layer turns
//! these into wire bytes outside the library.

use vstd::prelude::*;
use crate::math::Vec3i;

verus! {

/// Whether an actor is driven by a connected client or by the bot controller.
#[derive(Clone, Copy, PartialEq, Eq, Structural, Debug)]
pub enum ActorKind {
    Human,
    Bot,
}

/// Kill/death tally of one actor.
#[derive(Clone, Copy, PartialEq, Eq, Structural, Debug)]
pub struct ScoreEntry {
    pub id: u64,
    pub kills: u32,
    pub deaths: u32,
}

/// Latest continuous input frame of a client: planar move intent (scaled by
/// 1000), modifier flags and look angles.
#[derive(Clone, Copy, PartialEq, Eq, Debug)]
pub struct InputFrame {
    pub seq: u32,
    pub mv: [i64; 2],
    pub run: bool,
    pub jump: bool,
    pub fire: bool,
    pub yaw: i64,
    pub pitch: i64,
}

/// Authoritative per-actor state inside a snapshot.
#[derive(Clone, Copy, PartialEq, Eq, Debug)]
pub struct PlayerStateMsg {
    pub id: u64,
    pub pos: Vec3i,
    pub yaw: i64,
    pub alive: bool,
    pub hp: u16,
    pub vy: i64,
    pub grounded: bool,
    pub kind: ActorKind,
}

/// Periodic full state broadcast, with input acknowledgements.
#[derive(Clone, PartialEq, Eq, Debug)]
pub struct SnapshotMsg {
    pub tick: u32,
    pub players: Vec<PlayerStateMsg>,
    pub acks: Vec<(u64, u32)>,
}

/// A request from a client.
#[derive(Clone, Copy, PartialEq, Eq, Debug)]
pub enum ClientMessage {
    Input(InputFrame),
    PlaceScaffold { pos: Vec3i },
    Fire { origin: Vec3i, dir: Vec3i },
}

/// A discrete event broadcast by the server.
#[derive(Clone, PartialEq, Eq, Debug)]
pub enum EventMsg {
    Spawn { id: u64, pos: Vec3i, kind: ActorKind },
    Despawn { id: u64 },
    Hit { target_id: u64, new_hp: u16, by: u64 },
    Death { target_id: u64, by: u64 },
    RoundStart { time_left_sec: u32 },
    RoundEnd { winner_id: Option<u64>, next_in_sec: u32 },
    Ammo { id: u64, ammo: u16, reloading: bool },
    Fire { id: u64, origin: Vec3i, dir: Vec3i, hit: Option<Vec3i> },
    ScaffoldSpawn { sid: u64, owner: u64, pos: Vec3i },
    ScaffoldDespawn { sid: u64 },
    Score(Vec<ScoreEntry>),
}

/// Anything the server puts on the wire.
#[derive(Clone, PartialEq, Eq, Debug)]
pub enum ServerMessage {
    Snapshot(SnapshotMsg),
    Event(EventMsg),
    Score(Vec<ScoreEntry>),
}

} // verus!
