//! Authoritative simulation core of a server-hosted multiplayer shooter.
//!
//! The library owns the actor/weapon/round data model, the fixed-rate tick's
//! sub-steps, lag-compensated hit-scan combat, the bot finite state machine,
//! the scaffold lifecycle and the snapshot/event protocol. Physics and
//! transport are external collaborators: the tick driver hands the library
//! their answers (ray casts, resolved moves, received messages) as plain
//! values, and the library returns move requests, events and snapshots.
//!
//! All continuous quantities are fixed-point integers: lengths in
//! millimetres, times in milliseconds, angles in milliradians, unit vectors
//! scaled by 1000. This keeps every computation deterministic and lets each
//! step carry a proved contract.

pub mod actor;
pub mod botai;
pub mod combat;
pub mod config;
pub mod fire;
pub mod hexkey;
pub mod history;
pub mod math;
pub mod motion;
pub mod net;
pub mod rng;
pub mod round;
pub mod scaffold;
pub mod types;
pub mod weapon;
pub mod world;
