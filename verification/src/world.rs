//! The world aggregate: every registry the simulation owns, its global
//! well-formedness invariant, and the reconciliation of actors with
//! connections.

use vstd::prelude::*;
use crate::actor::Actor;
use crate::config::SimConfig;
use crate::history::TIME_MAX_MS;
use crate::math::Vec3i;
use crate::math::in_world;
use crate::math::is_milli_dir;
use crate::math::dist2;
use crate::math::dist2_exec;
use crate::rng::random_offset;
use crate::types::ActorKind;
use crate::types::EventMsg;
use crate::types::ScoreEntry;
use crate::weapon::WeaponStatus;

verus! {

/// Whether the table holds a row for this id.
pub open spec fn has_row(s: Seq<ScoreEntry>, id: u64) -> bool {
    exists|i: int| 0 <= i < s.len() && (#[trigger] s[i]).id == id
}

/// The index of the row for this id (meaningful when `has_row` holds).
pub open spec fn row_ix(s: Seq<ScoreEntry>, id: u64) -> int {
    choose|i: int| 0 <= i < s.len() && (#[trigger] s[i]).id == id
}

/// The table with the row for `id` ensured (appended fresh when missing).
pub open spec fn with_row(s: Seq<ScoreEntry>, id: u64) -> Seq<ScoreEntry> {
    if has_row(s, id) {
        s
    } else {
        s.push(ScoreEntry { id, kills: 0, deaths: 0 })
    }
}

/// The table with one kill credited to the row for `id` (saturating);
/// without a row — bots never have one — nothing is credited.
pub open spec fn bump_kills(s: Seq<ScoreEntry>, id: u64) -> Seq<ScoreEntry> {
    if has_row(s, id) {
        let i = row_ix(s, id);
        s.update(
            i,
            ScoreEntry {
                kills: if s[i].kills < 0xffff_ffff {
                    (s[i].kills + 1) as u32
                } else {
                    s[i].kills
                },
                ..s[i]
            },
        )
    } else {
        s
    }
}

/// The table with one death credited to the row for `id` (saturating);
/// without a row, nothing is credited.
pub open spec fn bump_deaths(s: Seq<ScoreEntry>, id: u64) -> Seq<ScoreEntry> {
    if has_row(s, id) {
        let i = row_ix(s, id);
        s.update(
            i,
            ScoreEntry {
                deaths: if s[i].deaths < 0xffff_ffff {
                    (s[i].deaths + 1) as u32
                } else {
                    s[i].deaths
                },
                ..s[i]
            },
        )
    } else {
        s
    }
}

/// Under row-id uniqueness, any index holding `id` is `row_ix`.
pub proof fn lemma_row_ix_is(s: Seq<ScoreEntry>, id: u64, i: int)
    requires
        0 <= i < s.len(),
        s[i].id == id,
        forall|a: int, b: int| 0 <= a < b < s.len() ==> (#[trigger] s[a]).id != (#[trigger] s[b]).id,
    ensures
        row_ix(s, id) == i,
        has_row(s, id),
{
    assert(has_row(s, id));
    let j = row_ix(s, id);
    if j != i {
        if j < i {
            assert(s[j].id != s[i].id);
        } else {
            assert(s[i].id != s[j].id);
        }
    }
}

/// Phases of the round state machine.
#[derive(Clone, Copy, PartialEq, Eq, Structural, Debug)]
pub enum RoundPhase {
    Active,
    Ending,
}

/// The round: its phase, the clock while Active, the delay while Ending.
#[derive(Clone, Copy, PartialEq, Eq, Structural, Debug)]
pub struct RoundState {
    pub phase: RoundPhase,
    pub time_left_ms: u32,
    pub end_timer_ms: u32,
}

/// One live piece of player-placed temporary geometry.
#[derive(Clone, Copy, PartialEq, Eq, Structural, Debug)]
pub struct Scaffold {
    pub sid: u64,
    pub owner: u64,
    pub pos: Vec3i,
    pub life_ms: u32,
}

/// How many scaffolds in the table belong to `o`.
pub open spec fn owner_count(s: Seq<Scaffold>, o: u64) -> int
    decreases s.len(),
{
    if s.len() == 0 {
        0
    } else {
        owner_count(s.drop_last(), o) + if s.last().owner == o {
            1int
        } else {
            0int
        }
    }
}

/// A queued aimed fire request: shooter, client ray origin and direction.
#[derive(Clone, Copy, PartialEq, Eq, Structural, Debug)]
pub struct FireRequest {
    pub shooter: u64,
    pub origin: Vec3i,
    pub dir: Vec3i,
}

/// A queued scaffold placement request.
#[derive(Clone, Copy, PartialEq, Eq, Structural, Debug)]
pub struct ScaffoldRequest {
    pub owner: u64,
    pub pos: Vec3i,
}

/// The single source of truth the tick driver owns.
#[derive(Clone, Debug)]
pub struct World {
    pub cfg: SimConfig,
    pub actors: Vec<Actor>,
    pub scores: Vec<ScoreEntry>,
    pub round: RoundState,
    pub scaffolds: Vec<Scaffold>,
    pub spawn_points: Vec<Vec3i>,
    pub pending_fires: Vec<FireRequest>,
    pub pending_scaffolds: Vec<ScaffoldRequest>,
    pub next_bot_id: u64,
    pub next_scaffold_id: u64,
    pub sim_time_ms: i64,
    pub tick_count: u32,
}

impl World {
    /// The global invariant: unique ids, well-formed actors, per-owner
    /// scaffold counts under the limit, in-range clocks and queues.
    pub open spec fn wf(self) -> bool {
        &&& self.cfg.wf()
        &&& forall|i: int, j: int|
            0 <= i < j < self.actors@.len() ==> (#[trigger] self.actors@[i]).id != (
            #[trigger] self.actors@[j]).id
        &&& forall|i: int|
            0 <= i < self.actors@.len() ==> (#[trigger] self.actors@[i]).wf(self.cfg)
        &&& forall|i: int|
            0 <= i < self.actors@.len() ==> (#[trigger] self.actors@[i]).hist_at_most(
                self.sim_time_ms as int,
            )
        &&& 0 <= self.sim_time_ms <= TIME_MAX_MS
        &&& forall|i: int, j: int|
            0 <= i < j < self.scores@.len() ==> (#[trigger] self.scores@[i]).id != (
            #[trigger] self.scores@[j]).id
        &&& forall|i: int, j: int|
            0 <= i < j < self.scaffolds@.len() ==> (#[trigger] self.scaffolds@[i]).sid < (
            #[trigger] self.scaffolds@[j]).sid
        &&& forall|i: int|
            0 <= i < self.scaffolds@.len() ==> (#[trigger] self.scaffolds@[i]).sid
                < self.next_scaffold_id
        &&& forall|i: int|
            0 <= i < self.scaffolds@.len() ==> in_world((#[trigger] self.scaffolds@[i]).pos)
        &&& forall|o: u64| #[trigger] owner_count(self.scaffolds@, o) <= self.cfg.scaffold_limit
        &&& forall|i: int| 0 <= i < self.spawn_points@.len() ==> in_world(#[trigger] self.spawn_points@[i])
        &&& self.round.time_left_ms <= self.cfg.round_time_ms
        &&& self.round.end_timer_ms <= self.cfg.round_end_delay_ms
        &&& forall|i: int|
            0 <= i < self.pending_fires@.len() ==> in_world(
                (#[trigger] self.pending_fires@[i]).origin,
            ) && is_milli_dir(self.pending_fires@[i].dir)
        &&& forall|i: int|
            0 <= i < self.pending_scaffolds@.len() ==> in_world(
                (#[trigger] self.pending_scaffolds@[i]).pos,
            )
    }

    /// Whether some actor carries this id.
    pub open spec fn has_actor(self, id: u64) -> bool {
        exists|i: int| 0 <= i < self.actors@.len() && (#[trigger] self.actors@[i]).id == id
    }

    /// The registry index of the actor with this id (meaningful only when
    /// `has_actor` holds; unique by the id-uniqueness invariant).
    pub open spec fn actor_ix(self, id: u64) -> int {
        choose|i: int| 0 <= i < self.actors@.len() && (#[trigger] self.actors@[i]).id == id
    }

    /// Under the invariant, any index holding `id` is `actor_ix(id)`.
    pub proof fn lemma_actor_ix_is(self, id: u64, i: int)
        requires
            self.wf(),
            0 <= i < self.actors@.len(),
            self.actors@[i].id == id,
        ensures
            self.actor_ix(id) == i,
            self.has_actor(id),
    {
        assert(self.has_actor(id));
        let j = self.actor_ix(id);
        if j != i {
            if j < i {
                assert(self.actors@[j].id != self.actors@[i].id);
            } else {
                assert(self.actors@[i].id != self.actors@[j].id);
            }
        }
    }

    /// A fresh world at the start of a session.
    pub fn new(cfg: SimConfig) -> (r: World)
        requires
            cfg.wf(),
        ensures
            r.wf(),
            r.cfg == cfg,
            r.actors@.len() == 0,
            r.scaffolds@.len() == 0,
            r.round == (RoundState {
                phase: RoundPhase::Active,
                time_left_ms: cfg.round_time_ms,
                end_timer_ms: 0,
            }),
            r.sim_time_ms == 0,
    {
        World {
            cfg,
            actors: Vec::new(),
            scores: Vec::new(),
            round: RoundState {
                phase: RoundPhase::Active,
                time_left_ms: cfg.round_time_ms,
                end_timer_ms: 0,
            },
            scaffolds: Vec::new(),
            spawn_points: Vec::new(),
            pending_fires: Vec::new(),
            pending_scaffolds: Vec::new(),
            next_bot_id: cfg.bot_id_start,
            next_scaffold_id: cfg.scaffold_id_start,
            sim_time_ms: 0,
            tick_count: 0,
        }
    }

    /// Index of the actor with this id.
    pub fn find_actor(&self, id: u64) -> (r: Option<usize>)
        ensures
            r matches Some(i) ==> i < self.actors@.len() && self.actors@[i as int].id == id,
            r is None ==> !self.has_actor(id),
    {
        let mut i: usize = 0;
        while i < self.actors.len()
            invariant
                0 <= i <= self.actors@.len(),
                forall|j: int| 0 <= j < i ==> (#[trigger] self.actors@[j]).id != id,
            decreases self.actors@.len() - i,
        {
            if self.actors[i].id == id {
                return Some(i);
            }
            i = i + 1;
        }
        None
    }

    /// Registers a map spawn point.
    pub fn add_spawn_point(&mut self, p: Vec3i)
        requires
            old(self).wf(),
            in_world(p),
        ensures
            final (self).wf(),
            final (self).spawn_points@ == old(self).spawn_points@.push(p),
            *final (self) == (World { spawn_points: final (self).spawn_points, ..*old(self) }),
    {
        self.spawn_points.push(p);
    }

    /// The smallest squared distance from `p` to a living actor among
    /// `actors[i..]`, or the horizon value if none lives there.
    pub open spec fn min_alive_d2(actors: Seq<Actor>, p: Vec3i, i: int) -> int
        decreases actors.len() - i,
    {
        if i < 0 || i >= actors.len() {
            0x7fff_ffff_ffff_ffff as int
        } else {
            let rest = Self::min_alive_d2(actors, p, i + 1);
            if actors[i].alive && dist2(actors[i].pos, p) < rest {
                dist2(actors[i].pos, p)
            } else {
                rest
            }
        }
    }

    /// The smallest squared distance from `p` to any living actor.
    fn min_alive_d2_exec(&self, p: Vec3i) -> (r: i64)
        requires
            self.wf(),
            in_world(p),
        ensures
            r == Self::min_alive_d2(self.actors@, p, 0),
    {
        let n = self.actors.len();
        let mut r: i64 = 0x7fff_ffff_ffff_ffff;
        let mut i: usize = n;
        while i > 0
            invariant
                self.wf(),
                in_world(p),
                0 <= i <= n,
                n == self.actors@.len(),
                r == Self::min_alive_d2(self.actors@, p, i as int),
            decreases i,
        {
            i = i - 1;
            let d = dist2_exec(self.actors[i].pos, p);
            if self.actors[i].alive && d < r {
                r = d;
            }
        }
        r
    }

    /// Chooses a spawn position: among the registered spawn points, the one
    /// whose minimum distance to any living actor is largest (the first such
    /// in registration order); the fixed default when the feature is off or
    /// no points are registered.
    pub fn choose_spawn_point(&self) -> (r: Vec3i)
        requires
            self.wf(),
        ensures
            in_world(r),
            r == self.spawn_anchor(),
            (!self.cfg.use_spawn_points || self.spawn_points@.len() == 0) ==> r
                == self.cfg.default_spawn,
            self.cfg.use_spawn_points && self.spawn_points@.len() > 0 ==> {
                &&& self.spawn_points@.contains(r)
                &&& forall|k: int|
                    0 <= k < self.spawn_points@.len() ==> Self::min_alive_d2(
                        self.actors@,
                        #[trigger] self.spawn_points@[k],
                        0,
                    ) <= Self::min_alive_d2(self.actors@, r, 0)
            },
    {
        if !self.cfg.use_spawn_points || self.spawn_points.len() == 0 {
            return self.cfg.default_spawn;
        }
        let mut best: Vec3i = self.spawn_points[0];
        let mut best_score: i64 = self.min_alive_d2_exec(best);
        let mut k: usize = 1;
        while k < self.spawn_points.len()
            invariant
                self.wf(),
                self.spawn_points@.len() > 0,
                1 <= k <= self.spawn_points@.len(),
                in_world(best),
                best == self.spawn_pick(k as int),
                best_score == Self::min_alive_d2(self.actors@, best, 0),
                exists|m: int| 0 <= m < self.spawn_points@.len() && #[trigger] self.spawn_points@[m] == best,
                forall|m: int|
                    0 <= m < k ==> Self::min_alive_d2(self.actors@, #[trigger] self.spawn_points@[m], 0)
                        <= best_score,
            decreases self.spawn_points@.len() - k,
        {
            let p = self.spawn_points[k];
            let s = self.min_alive_d2_exec(p);
            if s > best_score {
                best = p;
                best_score = s;
            }
            k = k + 1;
        }
        proof {
            let w = choose|m: int|
                0 <= m < self.spawn_points@.len() && #[trigger] self.spawn_points@[m] == best;
            assert(self.spawn_points@.contains(best));
        }
        best
    }

    /// The first spawn point among the first `k` that maximizes the minimum
    /// distance to a living actor.
    pub open spec fn spawn_pick(self, k: int) -> Vec3i
        decreases k,
    {
        if k <= 1 {
            self.spawn_points@[0]
        } else {
            let prev = self.spawn_pick(k - 1);
            let p = self.spawn_points@[k - 1];
            if Self::min_alive_d2(self.actors@, p, 0) > Self::min_alive_d2(self.actors@, prev, 0) {
                p
            } else {
                prev
            }
        }
    }

    /// The spawn position the rules choose before scattering: the first
    /// registered point maximizing the minimum distance to a living actor,
    /// or the fixed default when the feature is off or no point exists.
    pub open spec fn spawn_anchor(self) -> Vec3i {
        if !self.cfg.use_spawn_points || self.spawn_points@.len() == 0 {
            self.cfg.default_spawn
        } else {
            self.spawn_pick(self.spawn_points@.len() as int)
        }
    }

    /// A spawn position scattered around the chosen spawn point, clamped to
    /// the world.
    pub fn jittered_spawn(&self) -> (r: Vec3i)
        requires
            self.wf(),
        ensures
            in_world(r),
            r.y == self.spawn_anchor().y,
            self.spawn_anchor().x - self.cfg.spawn_jitter_mm <= r.x <= self.spawn_anchor().x
                + self.cfg.spawn_jitter_mm,
            self.spawn_anchor().z - self.cfg.spawn_jitter_mm <= r.z <= self.spawn_anchor().z
                + self.cfg.spawn_jitter_mm,
    {
        let base = self.choose_spawn_point();
        let jx = random_offset(self.cfg.spawn_jitter_mm);
        let jz = random_offset(self.cfg.spawn_jitter_mm);
        let x = clamp_world(base.x + jx);
        let z = clamp_world(base.z + jz);
        Vec3i { x, y: base.y, z }
    }

    /// Index of the score entry for this id.
    fn find_score(&self, id: u64) -> (r: Option<usize>)
        ensures
            r matches Some(i) ==> i < self.scores@.len() && self.scores@[i as int].id == id,
            r is None ==> forall|j: int| 0 <= j < self.scores@.len() ==> (#[trigger] self.scores@[j]).id != id,
    {
        let mut i: usize = 0;
        while i < self.scores.len()
            invariant
                0 <= i <= self.scores@.len(),
                forall|j: int| 0 <= j < i ==> (#[trigger] self.scores@[j]).id != id,
            decreases self.scores@.len() - i,
        {
            if self.scores[i].id == id {
                return Some(i);
            }
            i = i + 1;
        }
        None
    }

    /// Makes sure a score row exists for a (human) actor; rows are opened
    /// only here and on connect, so bots never hold one.
    pub fn ensure_score(&mut self, id: u64)
        requires
            old(self).wf(),
        ensures
            final (self).wf(),
            *final (self) == (World { scores: final (self).scores, ..*old(self) }),
            final (self).scores@ == with_row(old(self).scores@, id),
    {
        if let Some(i) = self.find_score(id) {
            proof {
                lemma_row_ix_is(self.scores@, id, i as int);
            }
        } else {
            let ghost olds = self.scores@;
            self.scores.push(ScoreEntry { id, kills: 0, deaths: 0 });
            proof {
                assert forall|i: int, j: int|
                    0 <= i < j < self.scores@.len() implies (#[trigger] self.scores@[i]).id != (
                #[trigger] self.scores@[j]).id by {
                    if j == self.scores@.len() - 1 {
                        assert(self.scores@[i] == olds[i]);
                    } else {
                        assert(self.scores@[i] == olds[i] && self.scores@[j] == olds[j]);
                    }
                }
            }
        }
    }

    /// Credits a kill to a shooter's row, saturating. Only humans hold a
    /// row, so a bot shooter is never credited.
    pub fn score_kill(&mut self, id: u64)
        requires
            old(self).wf(),
        ensures
            final (self).wf(),
            *final (self) == (World { scores: final (self).scores, ..*old(self) }),
            final (self).scores@ == bump_kills(old(self).scores@, id),
    {
        if let Some(i) = self.find_score(id) {
            proof {
                lemma_row_ix_is(self.scores@, id, i as int);
            }
            let ghost olds = self.scores@;
            let mut e = self.scores[i];
            e.kills = if e.kills < 0xffff_ffff {
                e.kills + 1
            } else {
                e.kills
            };
            self.scores.set(i, e);
            proof {
                assert forall|a: int, b: int|
                    0 <= a < b < self.scores@.len() implies (#[trigger] self.scores@[a]).id != (
                #[trigger] self.scores@[b]).id by {
                    assert(self.scores@[a].id == olds[a].id && self.scores@[b].id == olds[b].id);
                }
            }
        }
    }

    /// Credits a death to a victim's row, saturating. Only humans hold a
    /// row, so a bot victim adds to no tally.
    pub fn score_death(&mut self, id: u64)
        requires
            old(self).wf(),
        ensures
            final (self).wf(),
            *final (self) == (World { scores: final (self).scores, ..*old(self) }),
            final (self).scores@ == bump_deaths(old(self).scores@, id),
    {
        if let Some(i) = self.find_score(id) {
            proof {
                lemma_row_ix_is(self.scores@, id, i as int);
            }
            let ghost olds = self.scores@;
            let mut e = self.scores[i];
            e.deaths = if e.deaths < 0xffff_ffff {
                e.deaths + 1
            } else {
                e.deaths
            };
            self.scores.set(i, e);
            proof {
                assert forall|a: int, b: int|
                    0 <= a < b < self.scores@.len() implies (#[trigger] self.scores@[a]).id != (
                #[trigger] self.scores@[b]).id by {
                    assert(self.scores@[a].id == olds[a].id && self.scores@[b].id == olds[b].id);
                }
            }
        }
    }

    /// The score table, for a broadcast.
    pub fn score_table(&self) -> (r: Vec<ScoreEntry>)
        ensures
            r@ == self.scores@,
    {
        let mut out: Vec<ScoreEntry> = Vec::new();
        let mut i: usize = 0;
        while i < self.scores.len()
            invariant
                0 <= i <= self.scores@.len(),
                out@ == self.scores@.subrange(0, i as int),
            decreases self.scores@.len() - i,
        {
            out.push(self.scores[i]);
            i = i + 1;
        }
        proof {
            assert(out@ =~= self.scores@);
        }
        out
    }

    /// Adds a new actor (appended to the registry), keeping ids unique.
    fn push_actor(&mut self, a: Actor)
        requires
            old(self).wf(),
            a.wf(old(self).cfg),
            a.history@.len() == 0,
            !old(self).has_actor(a.id),
        ensures
            final (self).wf(),
            final (self).actors@ == old(self).actors@.push(a),
            *final (self) == (World { actors: final (self).actors, ..*old(self) }),
    {
        let ghost olda = self.actors@;
        self.actors.push(a);
        proof {
            assert forall|i: int, j: int|
                0 <= i < j < self.actors@.len() implies (#[trigger] self.actors@[i]).id != (
            #[trigger] self.actors@[j]).id by {
                if j == self.actors@.len() - 1 {
                    assert(self.actors@[i] == olda[i]);
                } else {
                    assert(self.actors@[i] == olda[i] && self.actors@[j] == olda[j]);
                }
            }
            assert forall|i: int| 0 <= i < self.actors@.len() implies (#[trigger] self.actors@[i]).wf(
                self.cfg,
            ) by {
                if i < olda.len() {
                    assert(self.actors@[i] == olda[i]);
                }
            }
            assert forall|i: int| 0 <= i < self.actors@.len() implies (
            #[trigger] self.actors@[i]).hist_at_most(self.sim_time_ms as int) by {
                if i < olda.len() {
                    assert(self.actors@[i] == olda[i]);
                }
            }
        }
    }

    /// Handles a new connection: spawns the human actor at a scattered
    /// contention-maximizing point with full health, magazine and spawn
    /// protection, opens its score row, and emits the handshake events
    /// (spawn, ammo, round clock, the current scaffold set).
    pub fn connect(&mut self, id: u64) -> (ev: Vec<EventMsg>)
        requires
            old(self).wf(),
        ensures
            final (self).wf(),
            final (self).has_actor(id) || old(self).has_actor(id),
            *final (self) == (World {
                actors: final (self).actors,
                scores: final (self).scores,
                ..*old(self)
            }),
            old(self).has_actor(id) ==> *final (self) == *old(self) && ev@.len() == 0,
            !old(self).has_actor(id) ==> {
                &&& final (self).scores@ == with_row(old(self).scores@, id)
                &&& final (self).actors@.len() == old(self).actors@.len() + 1
                &&& forall|j: int|
                    0 <= j < old(self).actors@.len() ==> #[trigger] final (self).actors@[j]
                        == old(self).actors@[j]
                &&& final (self).actors@[old(self).actors@.len() as int].id == id
                &&& final (self).actors@[old(self).actors@.len() as int].hp == 100
                &&& final (self).actors@[old(self).actors@.len() as int].alive
                &&& final (self).actors@[old(self).actors@.len() as int].kind == ActorKind::Human
                &&& final (self).actors@[old(self).actors@.len() as int].weapon == (WeaponStatus {
                    ammo: old(self).cfg.magazine_size,
                    cooldown_ms: 0,
                    reload_ms: 0,
                })
                &&& final (self).actors@[old(self).actors@.len() as int].protect_ms == old(
                    self,
                ).cfg.protect_ms
                &&& ev@.len() == 3 + old(self).scaffolds@.len()
                &&& ev@[0] matches EventMsg::Spawn { id: sid, kind, .. } && sid == id && kind
                    == ActorKind::Human
                &&& ev@[1] == (EventMsg::Ammo { id, ammo: old(self).cfg.magazine_size, reloading: false })
                &&& ev@[2] matches EventMsg::RoundStart { .. }
                &&& forall|k: int|
                    0 <= k < old(self).scaffolds@.len() ==> #[trigger] ev@[3 + k] == (
                    EventMsg::ScaffoldSpawn {
                        sid: old(self).scaffolds@[k].sid,
                        owner: old(self).scaffolds@[k].owner,
                        pos: old(self).scaffolds@[k].pos,
                    })
            },
    {
        if let Some(_i) = self.find_actor(id) {
            return Vec::new();
        }
        let pos = self.jittered_spawn();
        let a = Actor::spawn(id, ActorKind::Human, pos, &self.cfg);
        self.push_actor(a);
        self.ensure_score(id);
        let mut ev: Vec<EventMsg> = Vec::new();
        ev.push(EventMsg::Spawn { id, pos, kind: ActorKind::Human });
        ev.push(EventMsg::Ammo { id, ammo: self.cfg.magazine_size, reloading: false });
        ev.push(EventMsg::RoundStart { time_left_sec: self.round.time_left_ms / 1000 });
        let mut i: usize = 0;
        while i < self.scaffolds.len()
            invariant
                0 <= i <= self.scaffolds@.len(),
                ev@.len() == 3 + i,
                ev@[0] == (EventMsg::Spawn { id, pos, kind: ActorKind::Human }),
                ev@[1] == (EventMsg::Ammo {
                    id,
                    ammo: self.cfg.magazine_size,
                    reloading: false,
                }),
                ev@[2] == (EventMsg::RoundStart { time_left_sec: self.round.time_left_ms / 1000 }),
                forall|k: int|
                    0 <= k < i ==> #[trigger] ev@[3 + k] == (EventMsg::ScaffoldSpawn {
                        sid: self.scaffolds@[k].sid,
                        owner: self.scaffolds@[k].owner,
                        pos: self.scaffolds@[k].pos,
                    }),
            decreases self.scaffolds@.len() - i,
        {
            let sc = self.scaffolds[i];
            ev.push(EventMsg::ScaffoldSpawn { sid: sc.sid, owner: sc.owner, pos: sc.pos });
            i = i + 1;
        }
        ev
    }

    /// Handles a disconnection: removes the actor and its score row; emits
    /// the despawn.
    pub fn disconnect(&mut self, id: u64) -> (ev: Vec<EventMsg>)
        requires
            old(self).wf(),
        ensures
            final (self).wf(),
            !final (self).has_actor(id),
            *final (self) == (World {
                actors: final (self).actors,
                scores: final (self).scores,
                ..*old(self)
            }),
            old(self).has_actor(id) ==> {
                &&& ev@.len() == 1 && ev@[0] == (EventMsg::Despawn { id })
                &&& final (self).actors@ == old(self).actors@.remove(old(self).actor_ix(id))
                &&& final (self).scores@ == if has_row(old(self).scores@, id) {
                    old(self).scores@.remove(row_ix(old(self).scores@, id))
                } else {
                    old(self).scores@
                }
            },
            !old(self).has_actor(id) ==> *final (self) == *old(self) && ev@.len() == 0,
            forall|x: u64|
                x != id ==> (#[trigger] final (self).has_actor(x) <==> old(self).has_actor(x)),
    {
        let mut ev: Vec<EventMsg> = Vec::new();
        if let Some(i) = self.find_actor(id) {
            proof {
                old(self).lemma_actor_ix_is(id, i as int);
            }
            let ghost olda = self.actors@;
            self.actors.remove(i);
            proof {
                assert forall|a: int, b: int|
                    0 <= a < b < self.actors@.len() implies (#[trigger] self.actors@[a]).id != (
                #[trigger] self.actors@[b]).id by {
                    lemma_remove_keeps(olda, i as int, a, b);
                }
                assert forall|a: int| 0 <= a < self.actors@.len() implies (
                #[trigger] self.actors@[a]).wf(self.cfg) && self.actors@[a].hist_at_most(
                    self.sim_time_ms as int,
                ) by {
                    if a < i {
                        assert(self.actors@[a] == olda[a]);
                    } else {
                        assert(self.actors@[a] == olda[a + 1]);
                    }
                }
                assert forall|a: int| 0 <= a < self.actors@.len() implies (
                #[trigger] self.actors@[a]).id != id by {
                    if a < i {
                        assert(self.actors@[a] == olda[a]);
                        assert(olda[a].id != olda[i as int].id);
                    } else {
                        assert(self.actors@[a] == olda[a + 1]);
                        assert(olda[a + 1].id != olda[i as int].id);
                    }
                }
            }
            proof {
                assert forall|x: u64| x != id implies (self.has_actor(x) <==> #[trigger] old(
                    self,
                ).has_actor(x)) by {
                    if self.has_actor(x) {
                        let k = choose|k: int|
                            0 <= k < self.actors@.len() && (#[trigger] self.actors@[k]).id == x;
                        if k < i {
                            assert(olda[k].id == x);
                        } else {
                            assert(olda[k + 1].id == x);
                        }
                        assert(old(self).has_actor(x));
                    }
                    if old(self).has_actor(x) {
                        let k = choose|k: int|
                            0 <= k < olda.len() && (#[trigger] olda[k]).id == x;
                        assert(k != i);
                        if k < i {
                            assert(self.actors@[k] == olda[k]);
                            assert(self.actors@[k].id == x);
                        } else {
                            assert(self.actors@[k - 1] == olda[k]);
                            assert(self.actors@[k - 1].id == x);
                        }
                        assert(self.has_actor(x));
                    }
                }
            }
            if let Some(s) = self.find_score(id) {
                proof {
                    lemma_row_ix_is(self.scores@, id, s as int);
                }
                let ghost olds = self.scores@;
                self.scores.remove(s);
                proof {
                    assert forall|a: int, b: int|
                        0 <= a < b < self.scores@.len() implies (#[trigger] self.scores@[a]).id
                        != (#[trigger] self.scores@[b]).id by {
                        if a < s {
                            assert(self.scores@[a] == olds[a]);
                        } else {
                            assert(self.scores@[a] == olds[a + 1]);
                        }
                        if b < s {
                            assert(self.scores@[b] == olds[b]);
                        } else {
                            assert(self.scores@[b] == olds[b + 1]);
                        }
                    }
                }
            }
            ev.push(EventMsg::Despawn { id });
        }
        ev
    }

    /// Reconciles the registry with the live connections: connects every
    /// current client that lacks an actor, and disconnects every human
    /// actor whose client is gone. Bots are never removed here.
    pub fn sync_with_connections(&mut self, current: &Vec<u64>) -> (ev: Vec<EventMsg>)
        requires
            old(self).wf(),
        ensures
            final (self).wf(),
            forall|k: int|
                0 <= k < current@.len() ==> final (self).has_actor(#[trigger] current@[k]),
            forall|i: int|
                0 <= i < final (self).actors@.len() ==> ((#[trigger] final (self).actors@[i]).kind
                    == ActorKind::Human ==> current@.contains(final (self).actors@[i].id)),
    {
        let mut ev: Vec<EventMsg> = Vec::new();
        let mut k: usize = 0;
        while k < current.len()
            invariant
                self.wf(),
                0 <= k <= current@.len(),
                forall|m: int| 0 <= m < k ==> self.has_actor(#[trigger] current@[m]),
            decreases current@.len() - k,
        {
            let ghost pre = *self;
            let mut e = self.connect(current[k]);
            ev.append(&mut e);
            proof {
                assert forall|m: int| 0 <= m < k + 1 implies self.has_actor(
                    #[trigger] current@[m],
                ) by {
                    if m < k {
                        assert(pre.has_actor(current@[m]));
                        let w = choose|j: int|
                            0 <= j < pre.actors@.len() && (#[trigger] pre.actors@[j]).id
                                == current@[m];
                        if pre.has_actor(current@[k as int]) {
                            assert(self.actors@[w] == pre.actors@[w]);
                        } else {
                            assert(self.actors@[w] == pre.actors@[w]);
                        }
                        assert(self.actors@[w].id == current@[m]);
                    } else {
                        assert(self.has_actor(current@[k as int]));
                    }
                }
            }
            k = k + 1;
        }
        // Collect every human whose connection is gone.
        let mut stale: Vec<u64> = Vec::new();
        let n = self.actors.len();
        let mut i: usize = 0;
        while i < n
            invariant
                self.wf(),
                n == self.actors@.len(),
                0 <= i <= n,
                forall|m: int|
                    0 <= m < stale@.len() ==> !current@.contains(#[trigger] stale@[m]),
                forall|j: int|
                    0 <= j < i ==> ((#[trigger] self.actors@[j]).kind == ActorKind::Human
                        && !current@.contains(self.actors@[j].id) ==> stale@.contains(
                        self.actors@[j].id,
                    )),
            decreases n - i,
        {
            let ghost prestale = stale@;
            let a = &self.actors[i];
            if a.kind == ActorKind::Human && !contains_u64(current, a.id) {
                stale.push(a.id);
                proof {
                    assert(stale@[stale@.len() - 1] == self.actors@[i as int].id);
                }
            }
            proof {
                assert forall|j: int|
                    0 <= j < i + 1 && ((#[trigger] self.actors@[j]).kind == ActorKind::Human
                        && !current@.contains(self.actors@[j].id)) implies stale@.contains(
                    self.actors@[j].id,
                ) by {
                    if j < i {
                        assert(prestale.contains(self.actors@[j].id));
                        let q = choose|q: int|
                            0 <= q < prestale.len() && prestale[q] == self.actors@[j].id;
                        assert(stale@[q] == self.actors@[j].id);
                    } else {
                        assert(stale@[stale@.len() - 1] == self.actors@[j].id);
                    }
                }
            }
            i = i + 1;
        }
        // Disconnect them; every human that stays is a live connection.
        let mut m: usize = 0;
        while m < stale.len()
            invariant
                self.wf(),
                0 <= m <= stale@.len(),
                forall|q: int|
                    0 <= q < stale@.len() ==> !current@.contains(#[trigger] stale@[q]),
                forall|q: int| 0 <= q < current@.len() ==> self.has_actor(#[trigger] current@[q]),
                forall|j: int|
                    0 <= j < self.actors@.len() ==> ((#[trigger] self.actors@[j]).kind
                        == ActorKind::Human && !current@.contains(self.actors@[j].id) ==> exists|
                        q: int,
                    | m <= q < stale@.len() && stale@[q] == self.actors@[j].id),
            decreases stale@.len() - m,
        {
            let ghost pre = *self;
            let mut e = self.disconnect(stale[m]);
            ev.append(&mut e);
            proof {
                assert forall|q: int| 0 <= q < current@.len() implies self.has_actor(
                    #[trigger] current@[q],
                ) by {
                    assert(!current@.contains(stale@[m as int]));
                    assert(current@[q] != stale@[m as int]);
                    assert(pre.has_actor(current@[q]));
                }
                assert forall|j: int|
                    0 <= j < self.actors@.len() && ((#[trigger] self.actors@[j]).kind
                        == ActorKind::Human && !current@.contains(self.actors@[j].id)) implies exists|
                    q: int,
                | m + 1 <= q < stale@.len() && stale@[q] == self.actors@[j].id by {
                    if pre.has_actor(stale@[m as int]) {
                        let ix = pre.actor_ix(stale@[m as int]);
                        assert(self.actors@ == pre.actors@.remove(ix));
                        let a = self.actors@[j];
                        if j < ix {
                            assert(pre.actors@[j] == a);
                        } else {
                            assert(pre.actors@[j + 1] == a);
                        }
                        let q = choose|q: int|
                            m <= q < stale@.len() && #[trigger] stale@[q] == a.id;
                        if q == m {
                            assert(!self.has_actor(stale@[m as int]));
                            assert(self.actors@[j].id == stale@[m as int]);
                            assert(false);
                        }
                        assert(m + 1 <= q < stale@.len() && stale@[q] == a.id);
                    } else {
                        assert(*self == pre);
                        let a = self.actors@[j];
                        let q = choose|q: int|
                            m <= q < stale@.len() && #[trigger] stale@[q] == a.id;
                        if q == m {
                            assert(self.has_actor(stale@[m as int]));
                            assert(false);
                        }
                        assert(m + 1 <= q < stale@.len() && stale@[q] == a.id);
                    }
                }
            }
            m = m + 1;
        }
        proof {
            assert forall|i2: int|
                0 <= i2 < self.actors@.len() && (#[trigger] self.actors@[i2]).kind
                    == ActorKind::Human implies current@.contains(self.actors@[i2].id) by {
                if !current@.contains(self.actors@[i2].id) {
                    let q = choose|q: int|
                        stale@.len() <= q < stale@.len() && #[trigger] stale@[q]
                            == self.actors@[i2].id;
                    assert(false);
                }
            }
        }
        ev
    }

    /// How many of the actors are bots (alive or respawning).
    pub open spec fn bots_in(s: Seq<Actor>) -> int
        decreases s.len(),
    {
        if s.len() == 0 {
            0
        } else {
            Self::bots_in(s.drop_last()) + if s.last().kind == ActorKind::Bot {
                1int
            } else {
                0int
            }
        }
    }

    /// Ids are comfortably below the 64-bit ceiling, so fresh bot ids can
    /// always be allocated.
    pub open spec fn id_headroom(self) -> bool {
        &&& self.next_bot_id < 0xffff_ffff_ffff_0000
        &&& forall|i: int|
            0 <= i < self.actors@.len() ==> (#[trigger] self.actors@[i]).id
                < 0xffff_ffff_ffff_0000
    }

    /// The largest id in the registry (zero when it is empty).
    fn max_actor_id(&self) -> (r: u64)
        ensures
            forall|i: int| 0 <= i < self.actors@.len() ==> (#[trigger] self.actors@[i]).id <= r,
            self.actors@.len() == 0 ==> r == 0,
            self.actors@.len() > 0 ==> exists|i: int|
                0 <= i < self.actors@.len() && (#[trigger] self.actors@[i]).id == r,
    {
        let mut r: u64 = 0;
        let n = self.actors.len();
        let mut i: usize = 0;
        while i < n
            invariant
                n == self.actors@.len(),
                0 <= i <= n,
                forall|j: int| 0 <= j < i ==> (#[trigger] self.actors@[j]).id <= r,
                i == 0 ==> r == 0,
                i > 0 ==> exists|j: int|
                    0 <= j < i && (#[trigger] self.actors@[j]).id == r,
            decreases n - i,
        {
            if self.actors[i].id > r || i == 0 {
                r = self.actors[i].id;
                proof {
                    assert(self.actors@[i as int].id == r);
                }
            }
            i = i + 1;
        }
        r
    }

    /// Keeps the bot population at the configured target: spawns missing
    /// bots at scattered spawn positions with full state and protection.
    /// An id already taken is skipped for this pass (it heals next tick).
    pub fn ensure_bots(&mut self) -> (ev: Vec<EventMsg>)
        requires
            old(self).wf(),
        ensures
            final (self).wf(),
            forall|e: int|
                0 <= e < ev@.len() ==> (#[trigger] ev@[e]) matches EventMsg::Spawn {
                    kind: ActorKind::Bot,
                    ..
                },
            Self::bots_in(old(self).actors@) >= old(self).cfg.desired_bots ==> *final (self)
                == *old(self) && ev@.len() == 0,
            (Self::bots_in(old(self).actors@) < old(self).cfg.desired_bots && old(
                self,
            ).id_headroom()) ==> Self::bots_in(final (self).actors@) == old(
                self,
            ).cfg.desired_bots,
            final (self).actors@.len() >= old(self).actors@.len(),
            ev@.len() == final (self).actors@.len() - old(self).actors@.len(),
            forall|j: int|
                0 <= j < old(self).actors@.len() ==> #[trigger] final (self).actors@[j] == old(
                    self,
                ).actors@[j],
            forall|j: int|
                old(self).actors@.len() <= j < final (self).actors@.len() ==> (
                #[trigger] final (self).actors@[j]).kind == ActorKind::Bot && final (self).actors@[j].alive && final (self).actors@[j].hp == 100,
    {
        let mut ev: Vec<EventMsg> = Vec::new();
        let mut live_bots: usize = 0;
        let n = self.actors.len();
        let mut i: usize = 0;
        while i < n
            invariant
                n == self.actors@.len(),
                0 <= i <= n,
                live_bots <= i,
                live_bots == Self::bots_in(self.actors@.subrange(0, i as int)),
            decreases n - i,
        {
            let ghost pre = self.actors@.subrange(0, i as int);
            proof {
                assert(self.actors@.subrange(0, i + 1 as int).drop_last() =~= pre);
                assert(self.actors@.subrange(0, i + 1 as int).last() == self.actors@[i as int]);
            }
            if matches!(self.actors[i].kind, ActorKind::Bot) {
                live_bots = live_bots + 1;
            }
            i = i + 1;
        }
        proof {
            assert(self.actors@.subrange(0, n as int) =~= self.actors@);
        }
        let mut missing: usize = if live_bots < self.cfg.desired_bots {
            self.cfg.desired_bots - live_bots
        } else {
            0
        };
        proof {
            if Self::bots_in(old(self).actors@) >= old(self).cfg.desired_bots {
                assert(missing == 0);
            }
        }
        while missing > 0
            invariant
                self.wf(),
                *self == (World {
                    actors: self.actors,
                    next_bot_id: self.next_bot_id,
                    ..*old(self)
                }),
                Self::bots_in(old(self).actors@) < old(self).cfg.desired_bots || (missing == 0
                    && *self == *old(self) && ev@.len() == 0),
                forall|e: int|
                    0 <= e < ev@.len() ==> (#[trigger] ev@[e]) matches EventMsg::Spawn {
                        kind: ActorKind::Bot,
                        ..
                    },
                self.actors@.len() >= old(self).actors@.len(),
                ev@.len() == self.actors@.len() - old(self).actors@.len(),
                self.actors@.len() - old(self).actors@.len() + missing <= old(
                    self,
                ).cfg.desired_bots,
                old(self).cfg.desired_bots <= 1000,
                forall|j: int|
                    0 <= j < old(self).actors@.len() ==> #[trigger] self.actors@[j] == old(
                        self,
                    ).actors@[j],
                forall|j: int|
                    old(self).actors@.len() <= j < self.actors@.len() ==> (
                    #[trigger] self.actors@[j]).kind == ActorKind::Bot && self.actors@[j].alive
                        && self.actors@[j].hp == 100,
                old(self).id_headroom() ==> {
                    &&& Self::bots_in(self.actors@) + missing == if Self::bots_in(
                        old(self).actors@,
                    ) < old(self).cfg.desired_bots {
                        old(self).cfg.desired_bots as int
                    } else {
                        Self::bots_in(old(self).actors@)
                    }
                    &&& forall|j: int|
                        0 <= j < self.actors@.len() ==> (#[trigger] self.actors@[j]).id
                            < 0xffff_ffff_ffff_0000 + (self.actors@.len() - old(
                            self,
                        ).actors@.len())
                    &&& self.next_bot_id <= 0xffff_ffff_ffff_0000 + (self.actors@.len() - old(
                        self,
                    ).actors@.len())
                },
            decreases missing,
        {
            let ghost prea = self.actors@;
            let ghost premiss = missing;
            let mx = self.max_actor_id();
            let ghost mut pushed = false;
            if mx < 0xffff_ffff_ffff_fffe && self.next_bot_id < 0xffff_ffff_ffff_ffff {
                let id = if self.next_bot_id > mx {
                    self.next_bot_id
                } else {
                    mx + 1
                };
                proof {
                    if self.has_actor(id) {
                        let w = choose|w: int|
                            0 <= w < self.actors@.len() && (#[trigger] self.actors@[w]).id == id;
                        assert(self.actors@[w].id <= mx);
                        assert(false);
                    }
                }
                let pos = self.jittered_spawn();
                let a = Actor::spawn(id, ActorKind::Bot, pos, &self.cfg);
                self.push_actor(a);
                ev.push(EventMsg::Spawn { id, pos, kind: ActorKind::Bot });
                self.next_bot_id = id + 1;
                proof {
                    pushed = true;
                    lemma_bots_in_push(prea, a);
                }
            } else {
                proof {
                    if old(self).id_headroom() {
                        if prea.len() > 0 {
                            let w = choose|w: int|
                                0 <= w < prea.len() && (#[trigger] prea[w]).id == mx;
                            assert(prea[w].id < 0xffff_ffff_ffff_0000 + (prea.len() - old(
                                self,
                            ).actors@.len()));
                        }
                        assert(false);
                    }
                }
            }
            missing = missing - 1;
            proof {
                if old(self).id_headroom() {
                    assert(pushed);
                }
            }
        }
        ev
    }
}

/// Appending one actor raises the bot count exactly when it is a bot.
proof fn lemma_bots_in_push(s: Seq<Actor>, a: Actor)
    ensures
        World::bots_in(s.push(a)) == World::bots_in(s) + if a.kind == ActorKind::Bot {
            1int
        } else {
            0int
        },
{
    assert(s.push(a).drop_last() =~= s);
    assert(s.push(a).last() == a);
}

/// Whether the list carries this id.
fn contains_u64(v: &Vec<u64>, id: u64) -> (r: bool)
    ensures
        r == v@.contains(id),
{
    let mut i: usize = 0;
    while i < v.len()
        invariant
            0 <= i <= v@.len(),
            forall|j: int| 0 <= j < i ==> v@[j] != id,
        decreases v@.len() - i,
    {
        if v[i] == id {
            proof {
                assert(v@[i as int] == id);
            }
            return true;
        }
        i = i + 1;
    }
    proof {
        if v@.contains(id) {
            let j = choose|j: int| 0 <= j < v@.len() && v@[j] == id;
            assert(v@[j] != id);
        }
    }
    false
}

/// A coordinate clamped into the world box.
pub open spec fn clamp_world_spec(v: int) -> int {
    if v > 1_000_000 {
        1_000_000
    } else if v < -1_000_000 {
        -1_000_000
    } else {
        v
    }
}

/// Clamps a coordinate into the world box.
pub fn clamp_world(v: i64) -> (r: i64)
    requires
        -2_100_000_000 <= v <= 2_100_000_000,
    ensures
        r == clamp_world_spec(v as int),
        -1_000_000 <= r <= 1_000_000,
        -1_000_000 <= v <= 1_000_000 ==> r == v,
        v > 1_000_000 ==> r == 1_000_000,
        v < -1_000_000 ==> r == -1_000_000,
{
    if v > 1_000_000 {
        1_000_000
    } else if v < -1_000_000 {
        -1_000_000
    } else {
        v
    }
}

/// Removing an element and inserting another at the same index is the
/// pointwise update.
pub proof fn lemma_remove_insert_is_update<A>(s: Seq<A>, i: int, x: A)
    requires
        0 <= i < s.len(),
    ensures
        s.remove(i).insert(i, x) =~= s.update(i, x),
{
    let t = s.remove(i).insert(i, x);
    let u = s.update(i, x);
    assert forall|j: int| 0 <= j < u.len() implies t[j] == u[j] by {
        if j < i {
            assert(s.remove(i)[j] == s[j]);
        } else if j > i {
            assert(s.remove(i)[j - 1] == s[j]);
        }
    }
}

/// Two distinct positions of a sequence after a removal come from two
/// distinct positions before it.
proof fn lemma_remove_keeps(s: Seq<Actor>, r: int, a: int, b: int)
    requires
        0 <= r < s.len(),
        0 <= a < b < s.len() - 1,
        forall|i: int, j: int|
            0 <= i < j < s.len() ==> (#[trigger] s[i]).id != (#[trigger] s[j]).id,
    ensures
        s.remove(r)[a].id != s.remove(r)[b].id,
{
    let t = s.remove(r);
    if a < r {
        assert(t[a] == s[a]);
    } else {
        assert(t[a] == s[a + 1]);
    }
    if b < r {
        assert(t[b] == s[b]);
    } else {
        assert(t[b] == s[b + 1]);
    }
}

} // verus!
