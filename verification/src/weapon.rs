//! Per-actor weapon state: ammunition, fire cooldown and reload timers.
//!
//! The machine is Ready <-> Cooldown after each shot, and Ready/Empty ->
//! Reloading -> Ready on a timed full refill. Both timers count down by the
//! tick's `dt` and clamp at zero.

use vstd::prelude::*;

verus! {

/// Ammunition and the two countdown timers of one actor's weapon.
#[derive(Clone, Copy, PartialEq, Eq, Structural, Debug)]
pub struct WeaponStatus {
    pub ammo: u16,
    pub cooldown_ms: u32,
    pub reload_ms: u32,
}

impl WeaponStatus {
    /// The magazine never overflows, and a running reload implies an empty
    /// magazine (the reload refills it only on completion).
    pub open spec fn wf(self, magazine_size: u16) -> bool {
        &&& self.ammo <= magazine_size
        &&& self.reload_ms > 0 ==> self.ammo == 0
    }

    /// A freshly filled weapon.
    pub fn full(magazine_size: u16) -> (r: WeaponStatus)
        ensures
            r == (WeaponStatus { ammo: magazine_size, cooldown_ms: 0, reload_ms: 0 }),
            r.wf(magazine_size),
    {
        WeaponStatus { ammo: magazine_size, cooldown_ms: 0, reload_ms: 0 }
    }

    /// Firing requires no cooldown, no reload in progress, and a round left.
    pub open spec fn ready_spec(self) -> bool {
        self.cooldown_ms == 0 && self.reload_ms == 0 && self.ammo > 0
    }

    /// Whether a shot may be fired right now.
    pub fn ready(&self) -> (r: bool)
        ensures
            r == self.ready_spec(),
    {
        self.cooldown_ms == 0 && self.reload_ms == 0 && self.ammo > 0
    }

    /// Counts both timers down by `dt`, clamped at zero; a reload that
    /// reaches zero refills the magazine. Returns whether a reload completed
    /// on this tick.
    pub fn tick(&mut self, dt: u32, magazine_size: u16) -> (reload_done: bool)
        requires
            old(self).wf(magazine_size),
        ensures
            final (self).wf(magazine_size),
            final (self).cooldown_ms == if old(self).cooldown_ms >= dt {
                old(self).cooldown_ms - dt
            } else {
                0
            },
            final (self).reload_ms == if old(self).reload_ms >= dt {
                old(self).reload_ms - dt
            } else {
                0
            },
            reload_done == (old(self).reload_ms > 0 && old(self).reload_ms <= dt),
            reload_done ==> final (self).ammo == magazine_size,
            !reload_done ==> final (self).ammo == old(self).ammo,
    {
        if self.cooldown_ms >= dt {
            self.cooldown_ms = self.cooldown_ms - dt;
        } else {
            self.cooldown_ms = 0;
        }
        if self.reload_ms > 0 {
            if self.reload_ms > dt {
                self.reload_ms = self.reload_ms - dt;
                false
            } else {
                self.reload_ms = 0;
                self.ammo = magazine_size;
                true
            }
        } else {
            false
        }
    }

    /// Consumes one round and starts the fire cooldown.
    pub fn consume_shot(&mut self, cooldown_ms: u32, magazine_size: u16)
        requires
            old(self).wf(magazine_size),
            old(self).ready_spec(),
        ensures
            final (self).wf(magazine_size),
            final (self).ammo == old(self).ammo - 1,
            final (self).cooldown_ms == cooldown_ms,
            final (self).reload_ms == 0,
    {
        self.ammo = self.ammo - 1;
        self.cooldown_ms = cooldown_ms;
    }

    /// Starts a reload if none is running. Used when a fire intent finds the
    /// magazine empty, or right after the emptying shot.
    pub fn start_reload(&mut self, reload_ms: u32, magazine_size: u16)
        requires
            old(self).wf(magazine_size),
            old(self).ammo == 0,
            reload_ms > 0,
        ensures
            final (self).wf(magazine_size),
            final (self).ammo == 0,
            final (self).cooldown_ms == old(self).cooldown_ms,
            final (self).reload_ms == if old(self).reload_ms > 0 {
                old(self).reload_ms
            } else {
                reload_ms
            },
    {
        if self.reload_ms == 0 {
            self.reload_ms = reload_ms;
        }
    }
}

} // verus!
