//! The library's edge toward the transport: accepting client requests as
//! plain values (latest-input retention, queued fire and placement
//! requests), per-tick history sampling, and the periodic snapshot record.

use vstd::prelude::*;
use crate::actor::Actor;
use crate::actor::input_wf;
use crate::fire::lemma_same_ids_keep_wf;
use crate::history::push_sample;
use crate::history::TIME_MAX_MS;
use crate::math::Vec3i;
use crate::math::in_world;
use crate::math::is_milli_dir;
use crate::math::isqrt64;
use crate::math::wrap_pi;
use crate::types::ClientMessage;
use crate::types::InputFrame;
use crate::types::PlayerStateMsg;
use crate::types::SnapshotMsg;
use crate::world::FireRequest;
use crate::world::ScaffoldRequest;
use crate::world::World;

verus! {

/// A planar input component clamped to the unit scale.
pub open spec fn clamp_milli_spec(v: int) -> int {
    if v > 1000 {
        1000
    } else if v < -1000 {
        -1000
    } else {
        v
    }
}

/// A wild angle clamped into the range the wrap accepts.
pub open spec fn clamp_angle_spec(v: int) -> int {
    if v > 1_000_000_000 {
        1_000_000_000
    } else if v < -1_000_000_000 {
        -1_000_000_000
    } else {
        v
    }
}

/// A client point clamped into the world box, componentwise.
pub open spec fn clamp_point_spec(p: Vec3i) -> Vec3i {
    Vec3i {
        x: crate::world::clamp_world_spec(p.x as int) as i64,
        y: crate::world::clamp_world_spec(p.y as int) as i64,
        z: crate::world::clamp_world_spec(p.z as int) as i64,
    }
}

/// The accepted form of a raw input frame, as a value.
pub open spec fn sanitize_input_spec(f: InputFrame) -> InputFrame {
    InputFrame {
        seq: f.seq,
        mv: [clamp_milli_spec(f.mv[0] as int) as i64, clamp_milli_spec(f.mv[1] as int) as i64],
        run: f.run,
        jump: f.jump,
        fire: f.fire,
        yaw: crate::math::wrap_pi_spec(clamp_angle_spec(f.yaw as int)) as i64,
        pitch: crate::math::wrap_pi_spec(clamp_angle_spec(f.pitch as int)) as i64,
    }
}

/// The accepted form of a raw shot direction: clamped into the world box
/// and normalized to the unit scale, or nothing for a zero direction.
pub open spec fn sanitize_dir_spec(d: Vec3i) -> Option<Vec3i> {
    let c = clamp_point_spec(d);
    let l2 = crate::math::dist2(c, Vec3i { x: 0, y: 0, z: 0 });
    if l2 == 0 {
        None
    } else {
        let l = crate::math::sqrt_floor(l2);
        Some(
            Vec3i {
                x: crate::motion::sdivq(c.x * 1000, l) as i64,
                y: crate::motion::sdivq(c.y * 1000, l) as i64,
                z: crate::motion::sdivq(c.z * 1000, l) as i64,
            },
        )
    }
}

/// Clamps a planar input component to the unit scale.
fn clamp_milli(v: i64) -> (r: i64)
    ensures
        r == clamp_milli_spec(v as int),
        -1000 <= r <= 1000,
        -1000 <= v <= 1000 ==> r == v,
{
    if v > 1000 {
        1000
    } else if v < -1000 {
        -1000
    } else {
        v
    }
}

/// Clamps a wild angle into the range the wrap accepts.
fn clamp_angle(v: i64) -> (r: i64)
    ensures
        r == clamp_angle_spec(v as int),
        -1_000_000_000 <= r <= 1_000_000_000,
        -1_000_000_000 <= v <= 1_000_000_000 ==> r == v,
{
    if v > 1_000_000_000 {
        1_000_000_000
    } else if v < -1_000_000_000 {
        -1_000_000_000
    } else {
        v
    }
}

/// The accepted form of a raw input frame: planar intent clamped to the
/// unit square, angles wrapped to the canonical turn.
pub fn sanitize_input(f: InputFrame) -> (r: InputFrame)
    ensures
        r == sanitize_input_spec(f),
        input_wf(r),
        r.seq == f.seq,
        r.run == f.run,
        r.jump == f.jump,
        r.fire == f.fire,
{
    InputFrame {
        seq: f.seq,
        mv: [clamp_milli(f.mv[0]), clamp_milli(f.mv[1])],
        run: f.run,
        jump: f.jump,
        fire: f.fire,
        yaw: wrap_pi(clamp_angle(f.yaw)),
        pitch: wrap_pi(clamp_angle(f.pitch)),
    }
}

/// Clamps a client-supplied point into the world box.
fn clamp_point(p: Vec3i) -> (r: Vec3i)
    ensures
        r == clamp_point_spec(p),
        in_world(r),
        in_world(p) ==> r == p,
{
    let x = if p.x > 1_000_000 {
        1_000_000
    } else if p.x < -1_000_000 {
        -1_000_000
    } else {
        p.x
    };
    let y = if p.y > 1_000_000 {
        1_000_000
    } else if p.y < -1_000_000 {
        -1_000_000
    } else {
        p.y
    };
    let z = if p.z > 1_000_000 {
        1_000_000
    } else if p.z < -1_000_000 {
        -1_000_000
    } else {
        p.z
    };
    Vec3i { x, y, z }
}

/// Normalizes a client-supplied shot direction to the unit scale; a zero
/// (or wildly out-of-range) direction yields nothing and the request is
/// dropped.
fn sanitize_dir(d: Vec3i) -> (r: Option<Vec3i>)
    ensures
        r == sanitize_dir_spec(d),
        r matches Some(v) ==> is_milli_dir(v),
{
    let c = clamp_point(d);
    let d2 = crate::math::dist2_exec(c, Vec3i { x: 0, y: 0, z: 0 });
    if d2 == 0 {
        return None;
    }
    let lw = isqrt64(d2 as u64);
    proof {
        if lw == 0 {
            assert((lw + 1) * (lw + 1) == 1) by (nonlinear_arith)
                requires
                    lw == 0u64,
                ;
            assert(false);
        }
        assert(lw <= 4_000_000) by (nonlinear_arith)
            requires
                lw * lw <= 12_000_000_000_000u64,
            ;
    }
    let l: i64 = lw as i64;
    proof {
        assert(c.x * c.x <= d2 && c.y * c.y <= d2 && c.z * c.z <= d2) by (nonlinear_arith)
            requires
                d2 == c.x * c.x + c.y * c.y + c.z * c.z,
            ;
        assert(c.x <= l && -c.x <= l && c.y <= l && -c.y <= l && c.z <= l && -c.z <= l)
            by (nonlinear_arith)
            requires
                c.x * c.x <= d2 && c.y * c.y <= d2 && c.z * c.z <= d2,
                l >= 0,
                d2 < (l + 1) * (l + 1),
            ;
        assert(-4_000_000_000 <= c.x * 1000 <= 4_000_000_000 && -4_000_000_000 <= c.y * 1000
            <= 4_000_000_000 && -4_000_000_000 <= c.z * 1000 <= 4_000_000_000) by (nonlinear_arith)
            requires
                -4_000_000 <= c.x <= 4_000_000 && -4_000_000 <= c.y <= 4_000_000 && -4_000_000
                    <= c.z <= 4_000_000,
            ;
        crate::motion::lemma_scaled_bounded(c.x as int, l as int);
        crate::motion::lemma_scaled_bounded(c.y as int, l as int);
        crate::motion::lemma_scaled_bounded(c.z as int, l as int);
    }
    Some(
        Vec3i {
            x: crate::motion::sdivq_exec(c.x * 1000, l),
            y: crate::motion::sdivq_exec(c.y * 1000, l),
            z: crate::motion::sdivq_exec(c.z * 1000, l),
        },
    )
}

impl World {
    /// Accepts a client's latest continuous input frame: last-write-wins,
    /// and a held jump sets the short jump buffer.
    pub fn ingest_input(&mut self, sender: u64, f: InputFrame)
        requires
            old(self).wf(),
        ensures
            final (self).wf(),
            *final (self) == (World { actors: final (self).actors, ..*old(self) }),
            !old(self).has_actor(sender) ==> final (self).actors == old(self).actors,
            old(self).has_actor(sender) ==> {
                let i = old(self).actor_ix(sender);
                let a = old(self).actors@[i];
                let b = final (self).actors@[i];
                &&& final (self).actors@ == old(self).actors@.update(i, b)
                &&& b.last_input == Some(sanitize_input_spec(f))
                &&& b.last_input matches Some(g) && g.seq == f.seq && g.fire == f.fire && g.run
                    == f.run && g.jump == f.jump && input_wf(g)
                &&& b.jump_buffer_ms == if f.jump {
                    old(self).cfg.jump_buffer_ms
                } else {
                    a.jump_buffer_ms
                }
                &&& b == (Actor {
                    last_input: b.last_input,
                    jump_buffer_ms: b.jump_buffer_ms,
                    ..a
                })
            },
    {
        let iopt = self.find_actor(sender);
        if iopt.is_none() {
            return ;
        }
        let i = iopt.unwrap();
        proof {
            old(self).lemma_actor_ix_is(sender, i as int);
        }
        let ghost olda = self.actors@;
        let mut a = self.actors.remove(i);
        let g = sanitize_input(f);
        a.last_input = Some(g);
        if f.jump {
            a.jump_buffer_ms = self.cfg.jump_buffer_ms;
        }
        self.actors.insert(i, a);
        proof {
            crate::world::lemma_remove_insert_is_update(olda, i as int, a);
            assert(self.actors@ == olda.update(i as int, a));
            lemma_same_ids_keep_wf(olda, self.actors@, self.cfg);
            assert forall|j: int| 0 <= j < self.actors@.len() implies (
            #[trigger] self.actors@[j]).hist_at_most(self.sim_time_ms as int) by {
                assert(self.actors@[j].history == olda[j].history);
                assert(olda[j].hist_at_most(self.sim_time_ms as int));
            }
        }
    }

    /// Accepts one client request: the latest input frame is retained
    /// (last-write-wins), while explicit placement and aimed-fire requests
    /// are queued so each is resolved exactly once. A fire request whose
    /// direction cannot be normalized is dropped.
    pub fn ingest_message(&mut self, sender: u64, msg: ClientMessage)
        requires
            old(self).wf(),
        ensures
            final (self).wf(),
            msg matches ClientMessage::PlaceScaffold { pos } ==> {
                &&& final (self).pending_scaffolds@ == old(self).pending_scaffolds@.push(
                    ScaffoldRequest { owner: sender, pos: clamp_point_spec(pos) },
                )
                &&& *final (self) == (World {
                    pending_scaffolds: final (self).pending_scaffolds,
                    ..*old(self)
                })
            },
            msg matches ClientMessage::Fire { origin, dir } ==> {
                &&& final (self).pending_fires@ == match sanitize_dir_spec(dir) {
                    Some(v) => old(self).pending_fires@.push(
                        FireRequest {
                            shooter: sender,
                            origin: clamp_point_spec(origin),
                            dir: v,
                        },
                    ),
                    None => old(self).pending_fires@,
                }
                &&& *final (self) == (World {
                    pending_fires: final (self).pending_fires,
                    ..*old(self)
                })
            },
            msg matches ClientMessage::Input(f) ==> {
                &&& *final (self) == (World { actors: final (self).actors, ..*old(self) })
                &&& !old(self).has_actor(sender) ==> final (self).actors == old(self).actors
                &&& old(self).has_actor(sender) ==> {
                    let i = old(self).actor_ix(sender);
                    let a = old(self).actors@[i];
                    let b = final (self).actors@[i];
                    &&& final (self).actors@ == old(self).actors@.update(i, b)
                    &&& b.last_input == Some(sanitize_input_spec(f))
                    &&& b.jump_buffer_ms == if f.jump {
                        old(self).cfg.jump_buffer_ms
                    } else {
                        a.jump_buffer_ms
                    }
                    &&& b == (Actor {
                        last_input: b.last_input,
                        jump_buffer_ms: b.jump_buffer_ms,
                        ..a
                    })
                }
            },
    {
        match msg {
            ClientMessage::Input(f) => {
                self.ingest_input(sender, f);
            },
            ClientMessage::PlaceScaffold { pos } => {
                let p = clamp_point(pos);
                self.pending_scaffolds.push(ScaffoldRequest { owner: sender, pos: p });
            },
            ClientMessage::Fire { origin, dir } => {
                if let Some(d) = sanitize_dir(dir) {
                    let o = clamp_point(origin);
                    let ghost oldq = self.pending_fires@;
                    self.pending_fires.push(FireRequest { shooter: sender, origin: o, dir: d });
                    proof {
                        assert forall|k: int| 0 <= k < self.pending_fires@.len() implies in_world(
                            (#[trigger] self.pending_fires@[k]).origin,
                        ) && is_milli_dir(self.pending_fires@[k].dir) by {
                            if k < oldq.len() {
                                assert(self.pending_fires@[k] == oldq[k]);
                            }
                        }
                    }
                }
            },
        }
    }

    /// Takes this tick's queued aimed-fire requests, leaving the queue
    /// empty.
    pub fn drain_fires(&mut self) -> (r: Vec<FireRequest>)
        requires
            old(self).wf(),
        ensures
            final (self).wf(),
            r@ == old(self).pending_fires@,
            final (self).pending_fires@.len() == 0,
            *final (self) == (World { pending_fires: final (self).pending_fires, ..*old(self) }),
            forall|k: int|
                0 <= k < r@.len() ==> in_world((#[trigger] r@[k]).origin) && is_milli_dir(
                    r@[k].dir,
                ),
    {
        let mut out: Vec<FireRequest> = Vec::new();
        core::mem::swap(&mut out, &mut self.pending_fires);
        out
    }

    /// Takes this tick's queued placement requests, leaving the queue empty.
    pub fn drain_scaffold_requests(&mut self) -> (r: Vec<ScaffoldRequest>)
        requires
            old(self).wf(),
        ensures
            final (self).wf(),
            r@ == old(self).pending_scaffolds@,
            final (self).pending_scaffolds@.len() == 0,
            *final (self) == (World {
                pending_scaffolds: final (self).pending_scaffolds,
                ..*old(self)
            }),
            forall|k: int| 0 <= k < r@.len() ==> in_world((#[trigger] r@[k]).pos),
    {
        let mut out: Vec<ScaffoldRequest> = Vec::new();
        core::mem::swap(&mut out, &mut self.pending_scaffolds);
        out
    }

    /// Advances the simulation clock by `dt` and appends every actor's
    /// current position to its history, pruning samples older than the
    /// retention window.
    #[verifier::loop_isolation(false)]
    pub fn sample_history(&mut self, dt: u32)
        requires
            old(self).wf(),
            0 < dt <= 1000,
            old(self).sim_time_ms + dt <= TIME_MAX_MS,
        ensures
            final (self).wf(),
            final (self).sim_time_ms == old(self).sim_time_ms + dt,
            *final (self) == (World {
                actors: final (self).actors,
                sim_time_ms: final (self).sim_time_ms,
                tick_count: final (self).tick_count,
                ..*old(self)
            }),
            final (self).actors@.len() == old(self).actors@.len(),
            forall|i: int|
                0 <= i < old(self).actors@.len() ==> {
                    let a = old(self).actors@[i];
                    let b = #[trigger] final (self).actors@[i];
                    &&& b == (Actor { history: b.history, ..a })
                    &&& b.history@.len() >= 1
                    &&& b.history@[b.history@.len() - 1] == (crate::history::PosSample {
                        t_ms: final (self).sim_time_ms,
                        pos: a.pos,
                    })
                    &&& forall|m: int|
                        0 <= m < b.history@.len() ==> final (self).sim_time_ms
                            - #[trigger] b.history@[m].t_ms <= old(self).cfg.hist_max_ms
                },
    {
        self.sim_time_ms = self.sim_time_ms + dt as i64;
        if self.tick_count < 0xffff_ffff {
            self.tick_count = self.tick_count + 1;
        }
        let now = self.sim_time_ms;
        let hist_max = self.cfg.hist_max_ms as i64;
        let mut i: usize = 0;
        while i < self.actors.len()
            invariant
                self.cfg.wf(),
                now == self.sim_time_ms,
                hist_max == self.cfg.hist_max_ms as i64,
                0 <= now <= TIME_MAX_MS,
                *self == (World {
                    actors: self.actors,
                    sim_time_ms: self.sim_time_ms,
                    tick_count: self.tick_count,
                    ..*old(self)
                }),
                self.sim_time_ms == old(self).sim_time_ms + dt,
                self.actors@.len() == old(self).actors@.len(),
                0 <= i <= self.actors@.len(),
                forall|j: int|
                    i <= j < self.actors@.len() ==> #[trigger] self.actors@[j] == old(self).actors@[j],
                forall|j: int|
                    0 <= j < i ==> {
                        let a = old(self).actors@[j];
                        let b = #[trigger] self.actors@[j];
                        &&& b == (Actor { history: b.history, ..a })
                        &&& b.wf(self.cfg)
                        &&& b.hist_at_most(self.sim_time_ms as int)
                        &&& b.history@.len() >= 1
                        &&& b.history@[b.history@.len() - 1] == (crate::history::PosSample {
                            t_ms: now,
                            pos: a.pos,
                        })
                        &&& forall|m: int|
                            0 <= m < b.history@.len() ==> now - #[trigger] b.history@[m].t_ms
                                <= old(self).cfg.hist_max_ms
                    },
                forall|i2: int, j2: int|
                    0 <= i2 < j2 < self.actors@.len() ==> (#[trigger] self.actors@[i2]).id != (
                    #[trigger] self.actors@[j2]).id,
            decreases self.actors@.len() - i,
        {
            let ghost preva = self.actors@;
            let mut a = self.actors.remove(i);
            proof {
                assert(old(self).actors@[i as int].hist_at_most(old(self).sim_time_ms as int));
            }
            let pos = a.pos;
            push_sample(&mut a.history, now, pos, hist_max);
            self.actors.insert(i, a);
            proof {
                crate::world::lemma_remove_insert_is_update(preva, i as int, a);
                assert(self.actors@ == preva.update(i as int, a));
                assert forall|i2: int, j2: int|
                    0 <= i2 < j2 < self.actors@.len() implies (#[trigger] self.actors@[i2]).id
                    != (#[trigger] self.actors@[j2]).id by {
                    assert(self.actors@[i2].id == preva[i2].id && self.actors@[j2].id
                        == preva[j2].id);
                }
            }
            i = i + 1;
        }
    }

    /// The wire form of one actor's state.
    pub open spec fn snap_entry(a: Actor) -> PlayerStateMsg {
        PlayerStateMsg {
            id: a.id,
            pos: a.pos,
            yaw: a.yaw_mrad,
            alive: a.alive,
            hp: a.hp,
            vy: a.vy_mm_s,
            grounded: a.grounded,
            kind: a.kind,
        }
    }

    /// The input acknowledgements of a registry: one `(id, seq)` pair per
    /// actor that has an input frame, in registry order.
    pub open spec fn acks_of(s: Seq<Actor>) -> Seq<(u64, u32)>
        decreases s.len(),
    {
        if s.len() == 0 {
            Seq::empty()
        } else {
            Self::acks_of(s.drop_last()) + match s.last().last_input {
                Some(f) => seq![(s.last().id, f.seq)],
                None => Seq::empty(),
            }
        }
    }

    /// Builds the periodic authoritative snapshot: the tick counter, one
    /// state entry per actor, and the last-processed-input acknowledgements
    /// for client-side reconciliation.
    pub fn build_snapshot(&self) -> (r: SnapshotMsg)
        requires
            self.wf(),
        ensures
            r.tick == self.tick_count,
            r.players@.len() == self.actors@.len(),
            forall|i: int|
                0 <= i < self.actors@.len() ==> #[trigger] r.players@[i] == Self::snap_entry(
                    self.actors@[i],
                ),
            r.acks@ == Self::acks_of(self.actors@),
    {
        let mut players: Vec<PlayerStateMsg> = Vec::new();
        let mut acks: Vec<(u64, u32)> = Vec::new();
        let mut i: usize = 0;
        while i < self.actors.len()
            invariant
                0 <= i <= self.actors@.len(),
                players@.len() == i,
                forall|j: int|
                    0 <= j < i ==> #[trigger] players@[j] == Self::snap_entry(self.actors@[j]),
                acks@ == Self::acks_of(self.actors@.subrange(0, i as int)),
            decreases self.actors@.len() - i,
        {
            let a = &self.actors[i];
            players.push(
                PlayerStateMsg {
                    id: a.id,
                    pos: a.pos,
                    yaw: a.yaw_mrad,
                    alive: a.alive,
                    hp: a.hp,
                    vy: a.vy_mm_s,
                    grounded: a.grounded,
                    kind: a.kind,
                },
            );
            let ghost pre = self.actors@.subrange(0, i as int);
            proof {
                assert(self.actors@.subrange(0, i + 1 as int).drop_last() =~= pre);
                assert(self.actors@.subrange(0, i + 1 as int).last() == self.actors@[i as int]);
            }
            if let Some(f) = a.last_input {
                acks.push((a.id, f.seq));
            }
            i = i + 1;
        }
        proof {
            assert(self.actors@.subrange(0, self.actors@.len() as int) =~= self.actors@);
        }
        SnapshotMsg { tick: self.tick_count, players, acks }
    }
}

} // verus!
