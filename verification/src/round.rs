//! The round state machine: the Active clock counts down and ends on a
//! kill-count win or on expiry; Ending waits a fixed delay, then respawns
//! every human at contention-maximizing points, zeroes the scores, refills
//! weapons, and starts a fresh full-length round.

use vstd::prelude::*;
use crate::fire::lemma_same_ids_keep_wf;
use crate::types::ActorKind;
use crate::types::EventMsg;
use crate::weapon::WeaponStatus;
use crate::world::RoundPhase;
use crate::world::World;

verus! {

impl World {
    /// The first score row that reached the win threshold, if any.
    pub open spec fn winner_spec(self) -> Option<u64> {
        if exists|i: int|
            0 <= i < self.scores@.len() && (#[trigger] self.scores@[i]).kills
                >= self.cfg.win_kills {
            Some(
                self.scores@[choose|i: int|
                    0 <= i < self.scores@.len() && (#[trigger] self.scores@[i]).kills
                        >= self.cfg.win_kills && forall|m: int|
                        0 <= m < i ==> (#[trigger] self.scores@[m]).kills < self.cfg.win_kills].id,
            )
        } else {
            None
        }
    }

    /// The first score row at or past the win threshold.
    fn find_winner(&self) -> (r: Option<u64>)
        requires
            self.wf(),
        ensures
            r == self.winner_spec(),
            r is Some <==> exists|i: int|
                0 <= i < self.scores@.len() && (#[trigger] self.scores@[i]).kills
                    >= self.cfg.win_kills,
    {
        let mut i: usize = 0;
        while i < self.scores.len()
            invariant
                self.wf(),
                0 <= i <= self.scores@.len(),
                forall|m: int| 0 <= m < i ==> (#[trigger] self.scores@[m]).kills < self.cfg.win_kills,
            decreases self.scores@.len() - i,
        {
            if self.scores[i].kills >= self.cfg.win_kills {
                proof {
                    let w = i as int;
                    assert(0 <= w < self.scores@.len() && self.scores@[w].kills
                        >= self.cfg.win_kills && forall|m: int|
                        0 <= m < w ==> (#[trigger] self.scores@[m]).kills < self.cfg.win_kills);
                    let c = choose|j: int|
                        0 <= j < self.scores@.len() && (#[trigger] self.scores@[j]).kills
                            >= self.cfg.win_kills && forall|m: int|
                            0 <= m < j ==> (#[trigger] self.scores@[m]).kills < self.cfg.win_kills;
                    if c != w {
                        if c < w {
                            assert(self.scores@[c].kills < self.cfg.win_kills);
                        } else {
                            assert(self.scores@[w].kills < self.cfg.win_kills);
                        }
                    }
                }
                return Some(self.scores[i].id);
            }
            i = i + 1;
        }
        proof {
            if exists|j: int|
                0 <= j < self.scores@.len() && (#[trigger] self.scores@[j]).kills
                    >= self.cfg.win_kills {
                let j = choose|j: int|
                    0 <= j < self.scores@.len() && (#[trigger] self.scores@[j]).kills
                        >= self.cfg.win_kills;
                assert(self.scores@[j].kills < self.cfg.win_kills);
            }
        }
        None
    }

    /// One tick of the round state machine.
    ///
    /// While Active the clock strictly decreases (clamped at zero), and a
    /// round-end notification goes out exactly when a score reached the win
    /// threshold or the clock ran out. While Ending, once the delay has
    /// elapsed, every human respawns with full health and magazine, scores
    /// are zeroed, and a fresh round starts with the full clock.
    #[verifier::loop_isolation(false)]
    #[verifier::rlimit(60)]
    pub fn round_update(&mut self, dt: u32) -> (ev: Vec<EventMsg>)
        requires
            old(self).wf(),
            0 < dt <= 1000,
        ensures
            final (self).wf(),
            *final (self) == (World {
                actors: final (self).actors,
                scores: final (self).scores,
                round: final (self).round,
                ..*old(self)
            }),
            old(self).round.phase == RoundPhase::Active ==> {
                let left = if old(self).round.time_left_ms >= dt {
                    (old(self).round.time_left_ms - dt) as u32
                } else {
                    0u32
                };
                let ended = old(self).winner_spec() is Some || left == 0;
                &&& final (self).round.time_left_ms == left
                &&& old(self).round.time_left_ms > 0 ==> final (self).round.time_left_ms < old(self).round.time_left_ms
                &&& final (self).actors == old(self).actors
                &&& final (self).scores == old(self).scores
                &&& ended ==> final (self).round.phase == RoundPhase::Ending && final (self).round.end_timer_ms == old(self).cfg.round_end_delay_ms && ev@ =~= seq![
                    EventMsg::RoundEnd {
                        winner_id: old(self).winner_spec(),
                        next_in_sec: old(self).cfg.round_end_delay_ms / 1000,
                    },
                ]
                &&& !ended ==> final (self).round.phase == RoundPhase::Active && ev@.len() == 0
            },
            old(self).round.phase == RoundPhase::Ending ==> {
                let left = if old(self).round.end_timer_ms >= dt {
                    (old(self).round.end_timer_ms - dt) as u32
                } else {
                    0u32
                };
                &&& left > 0 ==> final (self).round == (crate::world::RoundState {
                    end_timer_ms: left,
                    ..old(self).round
                }) && final (self).actors == old(self).actors && final (self).scores == old(self).scores && ev@.len() == 0
                &&& left == 0 ==> {
                    &&& final (self).round == (crate::world::RoundState {
                        phase: RoundPhase::Active,
                        time_left_ms: old(self).cfg.round_time_ms,
                        end_timer_ms: 0,
                    })
                    &&& forall|i: int|
                        0 <= i < final (self).scores@.len() ==> (
                        #[trigger] final (self).scores@[i]).kills == 0 && final (self).scores@[i].deaths == 0
                    &&& forall|i: int|
                        0 <= i < final (self).actors@.len() ==> ((#[trigger] old(self).actors@[i]).kind == ActorKind::Human ==> final (self).actors@[i].alive
                            && final (self).actors@[i].hp == 100 && final (self).actors@[i].weapon == (WeaponStatus {
                            ammo: old(self).cfg.magazine_size,
                            cooldown_ms: 0,
                            reload_ms: 0,
                        }) && !final (self).actors@[i].respawn_pending)
                    &&& ev@.len() >= 2
                    &&& ev@[ev@.len() - 1] == (EventMsg::RoundStart {
                        time_left_sec: old(self).cfg.round_time_ms / 1000,
                    })
                    &&& ev@[ev@.len() - 2] matches EventMsg::Score(t) && t@ == final (self).scores@
                    &&& forall|i: int|
                        0 <= i < old(self).actors@.len() && (#[trigger] old(self).actors@[i]).kind
                            == ActorKind::Human ==> ev@.contains(
                            EventMsg::Spawn {
                                id: old(self).actors@[i].id,
                                pos: final (self).actors@[i].pos,
                                kind: ActorKind::Human,
                            },
                        )
                    &&& forall|e: int|
                        0 <= e < ev@.len() ==> ((#[trigger] ev@[e]) is Spawn || ev@[e]
                            is RoundStart || ev@[e] is Score)
                }
            },
    {
        let mut ev: Vec<EventMsg> = Vec::new();
        if self.round.phase == RoundPhase::Active {
            let left: u32 = if self.round.time_left_ms >= dt {
                self.round.time_left_ms - dt
            } else {
                0
            };
            self.round.time_left_ms = left;
            let winner = self.find_winner();
            if winner.is_some() || left == 0 {
                ev.push(
                    EventMsg::RoundEnd {
                        winner_id: winner,
                        next_in_sec: self.cfg.round_end_delay_ms / 1000,
                    },
                );
                self.round.phase = RoundPhase::Ending;
                self.round.end_timer_ms = self.cfg.round_end_delay_ms;
            }
            return ev;
        }
        // Ending.
        let left: u32 = if self.round.end_timer_ms >= dt {
            self.round.end_timer_ms - dt
        } else {
            0
        };
        self.round.end_timer_ms = left;
        if left > 0 {
            return ev;
        }
        // Reset: respawn every human, zero the scores, restart the clock.
        let mut i: usize = 0;
        while i < self.actors.len()
            invariant
                self.wf(),
                *self == (World {
                    actors: self.actors,
                    round: self.round,
                    ..*old(self)
                }),
                self.actors@.len() == old(self).actors@.len(),
                0 <= i <= self.actors@.len(),
                forall|j: int|
                    i <= j < self.actors@.len() ==> #[trigger] self.actors@[j] == old(self).actors@[j],
                forall|j: int|
                    0 <= j < i ==> ((#[trigger] old(self).actors@[j]).kind == ActorKind::Human
                        ==> self.actors@[j].alive && self.actors@[j].hp == 100
                        && self.actors@[j].weapon == (WeaponStatus {
                        ammo: old(self).cfg.magazine_size,
                        cooldown_ms: 0,
                        reload_ms: 0,
                    }) && !self.actors@[j].respawn_pending),
                forall|j: int|
                    0 <= j < i && (#[trigger] old(self).actors@[j]).kind != ActorKind::Human
                        ==> self.actors@[j] == old(self).actors@[j],
                forall|j: int|
                    0 <= j < i && (#[trigger] old(self).actors@[j]).kind == ActorKind::Human
                        ==> ev@.contains(
                        EventMsg::Spawn {
                            id: old(self).actors@[j].id,
                            pos: self.actors@[j].pos,
                            kind: ActorKind::Human,
                        },
                    ),
                forall|e: int|
                    0 <= e < ev@.len() ==> ((#[trigger] ev@[e]) is Spawn || ev@[e] is RoundStart),
            decreases self.actors@.len() - i,
        {
            let kind = self.actors[i].kind;
            let ghost prevev = ev@;
            let ghost preva0 = self.actors@;
            if kind == ActorKind::Human {
                // Round resets relocate to the contention-maximizing point,
                // as the registry stands while the reset walks it.
                let pos = self.choose_spawn_point();
                let mag = self.cfg.magazine_size;
                let ghost preva = self.actors@;
                let mut a = self.actors.remove(i);
                let id = a.id;
                a.pos = pos;
                a.vy_mm_s = 0;
                a.grounded = true;
                a.hp = 100;
                a.alive = true;
                a.weapon = WeaponStatus { ammo: mag, cooldown_ms: 0, reload_ms: 0 };
                a.respawn_pending = false;
                a.respawn_ms = 0;
                a.air_jumps = 0;
                self.actors.insert(i, a);
                ev.push(EventMsg::Spawn { id, pos, kind: ActorKind::Human });
                proof {
                    crate::world::lemma_remove_insert_is_update(preva, i as int, a);
                    assert(self.actors@ == preva.update(i as int, a));
                    lemma_same_ids_keep_wf(preva, self.actors@, self.cfg);
                    assert forall|j: int| 0 <= j < self.actors@.len() implies (
                    #[trigger] self.actors@[j]).hist_at_most(self.sim_time_ms as int) by {
                        assert(self.actors@[j].history == preva[j].history);
                        assert(preva[j].hist_at_most(self.sim_time_ms as int));
                    }
                }
            }
            proof {
                assert forall|j: int|
                    0 <= j < i + 1 && (#[trigger] old(self).actors@[j]).kind == ActorKind::Human implies ev@.contains(
                    EventMsg::Spawn {
                        id: old(self).actors@[j].id,
                        pos: self.actors@[j].pos,
                        kind: ActorKind::Human,
                    },
                ) by {
                    if j < i {
                        assert(self.actors@[j] == preva0[j]);
                        assert(prevev.contains(
                            EventMsg::Spawn {
                                id: old(self).actors@[j].id,
                                pos: self.actors@[j].pos,
                                kind: ActorKind::Human,
                            },
                        ));
                        assert forall|m: int| 0 <= m < prevev.len() implies #[trigger] ev@[m]
                            == prevev[m] by {}
                        crate::fire::lemma_prefix_keeps_contains(
                            prevev,
                            ev@,
                            EventMsg::Spawn {
                                id: old(self).actors@[j].id,
                                pos: self.actors@[j].pos,
                                kind: ActorKind::Human,
                            },
                        );
                    } else {
                        assert(ev@[ev@.len() - 1] == (EventMsg::Spawn {
                            id: old(self).actors@[j].id,
                            pos: self.actors@[j].pos,
                            kind: ActorKind::Human,
                        }));
                    }
                }
            }
            i = i + 1;
        }
        // Zero the scores, keeping the rows.
        let mut k: usize = 0;
        while k < self.scores.len()
            invariant
                self.wf(),
                *self == (World {
                    actors: self.actors,
                    scores: self.scores,
                    round: self.round,
                    ..*old(self)
                }),
                0 <= k <= self.scores@.len(),
                forall|j: int|
                    0 <= j < k ==> (#[trigger] self.scores@[j]).kills == 0 && self.scores@[j].deaths
                        == 0,
                forall|j: int|
                    k <= j < self.scores@.len() ==> #[trigger] self.scores@[j].id
                        == old(self).scores@[j].id,
                self.scores@.len() == old(self).scores@.len(),
                forall|a: int, b: int|
                    0 <= a < b < self.scores@.len() ==> (#[trigger] self.scores@[a]).id != (
                    #[trigger] self.scores@[b]).id,
                forall|e: int|
                    0 <= e < ev@.len() ==> ((#[trigger] ev@[e]) is Spawn || ev@[e] is RoundStart),
                forall|j: int|
                    0 <= j < self.actors@.len() ==> ((#[trigger] old(self).actors@[j]).kind
                        == ActorKind::Human ==> self.actors@[j].alive && self.actors@[j].hp == 100
                        && self.actors@[j].weapon == (WeaponStatus {
                        ammo: old(self).cfg.magazine_size,
                        cooldown_ms: 0,
                        reload_ms: 0,
                    }) && !self.actors@[j].respawn_pending),
                self.actors@.len() == old(self).actors@.len(),
                forall|j: int|
                    0 <= j < old(self).actors@.len() && (#[trigger] old(self).actors@[j]).kind
                        == ActorKind::Human ==> ev@.contains(
                        EventMsg::Spawn {
                            id: old(self).actors@[j].id,
                            pos: self.actors@[j].pos,
                            kind: ActorKind::Human,
                        },
                    ),
                forall|e: int|
                    0 <= e < ev@.len() ==> ((#[trigger] ev@[e]) is Spawn || ev@[e] is RoundStart),
            decreases self.scores@.len() - k,
        {
            let ghost prevs = self.scores@;
            let mut e = self.scores[k];
            e.kills = 0;
            e.deaths = 0;
            self.scores.set(k, e);
            proof {
                assert(forall|j: int|
                    0 <= j < self.scores@.len() && j != k ==> #[trigger] self.scores@[j]
                        == prevs[j]);
                assert forall|a: int, b: int|
                    0 <= a < b < self.scores@.len() implies (#[trigger] self.scores@[a]).id != (
                #[trigger] self.scores@[b]).id by {
                    assert(self.scores@[a].id == prevs[a].id && self.scores@[b].id == prevs[b].id);
                }
            }
            k = k + 1;
        }
        self.round.phase = RoundPhase::Active;
        self.round.time_left_ms = self.cfg.round_time_ms;
        self.round.end_timer_ms = 0;
        let ghost prevev = ev@;
        let table = self.score_table();
        ev.push(EventMsg::Score(table));
        ev.push(EventMsg::RoundStart { time_left_sec: self.cfg.round_time_ms / 1000 });
        proof {
            assert forall|j: int|
                0 <= j < old(self).actors@.len() && (#[trigger] old(self).actors@[j]).kind
                    == ActorKind::Human implies ev@.contains(
                EventMsg::Spawn {
                    id: old(self).actors@[j].id,
                    pos: self.actors@[j].pos,
                    kind: ActorKind::Human,
                },
            ) by {
                assert(prevev.contains(
                    EventMsg::Spawn {
                        id: old(self).actors@[j].id,
                        pos: self.actors@[j].pos,
                        kind: ActorKind::Human,
                    },
                ));
                assert forall|m: int| 0 <= m < prevev.len() implies #[trigger] ev@[m]
                    == prevev[m] by {}
                crate::fire::lemma_prefix_keeps_contains(
                    prevev,
                    ev@,
                    EventMsg::Spawn {
                        id: old(self).actors@[j].id,
                        pos: self.actors@[j].pos,
                        kind: ActorKind::Human,
                    },
                );
            }
        }
        ev
    }
}

} // verus!
