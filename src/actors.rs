//! The player and the enemies: position, pending path, health and stats.
use vstd::prelude::*;
use crate::hex::HexCoord;

verus! {

/// The player's character stats.
#[derive(Clone, Copy, Debug, PartialEq, Eq, Structural)]
pub struct Stats {
    pub speed: i32,
    pub damage: i32,
    pub health: i32,
}

impl Stats {
    pub fn to_tupple(&self) -> (t: (i32, i32, i32))
        ensures
            t == (self.speed, self.damage, self.health),
    {
        (self.speed, self.damage, self.health)
    }
}

/// One of the three stats.
#[derive(Clone, Copy, Debug, PartialEq, Eq, Structural)]
pub enum Stat {
    Speed,
    Damage,
    Health,
}

/// Points a character has to share among its stats.
pub const STAT_POINTS: i32 = 10;

/// The value of one stat.
pub open spec fn stat_value(s: Stats, stat: Stat) -> int {
    match stat {
        Stat::Speed => s.speed as int,
        Stat::Damage => s.damage as int,
        Stat::Health => s.health as int,
    }
}

/// A change of a stat by `amount` is taken when the stat stays at least one
/// and the three stats together stay within the points available (and the
/// stat within `i32`).
pub open spec fn stat_change_allowed(s: Stats, stat: Stat, amount: int) -> bool {
    &&& 1 <= stat_value(s, stat) + amount <= i32::MAX
    &&& s.speed + s.damage + s.health + amount <= STAT_POINTS
}

impl Stats {
    /// Changes `stat` by `amount` when that is allowed; returns whether it was.
    pub fn modify(&mut self, stat: Stat, amount: i32) -> (changed: bool)
        ensures
            changed == stat_change_allowed(*old(self), stat, amount as int),
            changed ==> stat_value(*final(self), stat) == stat_value(*old(self), stat) + amount,
            forall|other: Stat| other != stat ==> stat_value(*final(self), other) == stat_value(*old(self), other),
            !changed ==> *final(self) == *old(self),
    {
        let total = self.speed as i64 + self.damage as i64 + self.health as i64 + amount as i64;
        let value = match stat {
            Stat::Speed => self.speed,
            Stat::Damage => self.damage,
            Stat::Health => self.health,
        };
        let new_value = value as i64 + amount as i64;
        if new_value < 1 || new_value > i32::MAX as i64 || total > STAT_POINTS as i64 {
            return false;
        }
        match stat {
            Stat::Speed => self.speed = new_value as i32,
            Stat::Damage => self.damage = new_value as i32,
            Stat::Health => self.health = new_value as i32,
        }
        true
    }
}

/// Hit points; at or below zero the owner is defeated.
#[derive(Clone, Copy, Debug, PartialEq, Eq, Structural)]
pub struct Health {
    pub max_hp: i64,
    pub hp: i64,
}

impl Health {
    pub fn new(hp: i64) -> (h: Health)
        ensures
            h.max_hp == hp,
            h.hp == hp,
    {
        Health { max_hp: hp, hp }
    }
}

/// `hp` after losing `amount`, held at the ends of the `i64` range.
pub open spec fn lose_hp(hp: i64, amount: int) -> i64 {
    if hp - amount < i64::MIN {
        i64::MIN
    } else if hp - amount > i64::MAX {
        i64::MAX
    } else {
        (hp - amount) as i64
    }
}

/// Subtracts `amount` from `hp`.
pub fn lose_hp_exec(hp: i64, amount: i64) -> (r: i64)
    ensures
        r == lose_hp(hp, amount as int),
{
    let d = hp as i128 - amount as i128;
    if d < i64::MIN as i128 {
        i64::MIN
    } else if d > i64::MAX as i128 {
        i64::MAX
    } else {
        d as i64
    }
}

/// A repeating timer counted in milliseconds: it fires each time the
/// accumulated time reaches the duration, and keeps the remainder.
#[derive(Clone, Copy, Debug, PartialEq, Eq, Structural)]
pub struct StepTimer {
    pub duration_ms: u64,
    pub elapsed_ms: u64,
}

/// Whether a tick of `delta` fires the timer.
pub open spec fn timer_fires(t: StepTimer, delta: u64) -> bool {
    t.elapsed_ms + delta >= t.duration_ms
}

/// The timer after a tick of `delta`.
pub open spec fn timer_after(t: StepTimer, delta: u64) -> StepTimer {
    StepTimer {
        duration_ms: t.duration_ms,
        elapsed_ms: if t.duration_ms == 0 {
            0
        } else {
            ((t.elapsed_ms + delta) % (t.duration_ms as int)) as u64
        },
    }
}

impl StepTimer {
    pub open spec fn wf(self) -> bool {
        self.duration_ms == 0 || self.elapsed_ms < self.duration_ms
    }

    pub fn new(duration_ms: u64) -> (t: StepTimer)
        ensures
            t.duration_ms == duration_ms,
            t.elapsed_ms == 0,
            t.wf(),
    {
        StepTimer { duration_ms, elapsed_ms: 0 }
    }

    /// Advances the timer by `delta` and says whether it fired.
    pub fn tick(&mut self, delta: u64) -> (fired: bool)
        requires
            old(self).wf(),
        ensures
            fired == timer_fires(*old(self), delta),
            *final(self) == timer_after(*old(self), delta),
            final(self).wf(),
    {
        let total: u128 = self.elapsed_ms as u128 + delta as u128;
        let fired = total >= self.duration_ms as u128;
        if self.duration_ms == 0 {
            self.elapsed_ms = 0;
        } else {
            let rest = total % (self.duration_ms as u128);
            assert(rest < self.duration_ms);
            self.elapsed_ms = rest as u64;
        }
        fired
    }

    /// Sets the elapsed time just short of firing, so that the next step
    /// starts almost at once.
    pub fn set_almost_finished(&mut self)
        ensures
            final(self).duration_ms == old(self).duration_ms,
            final(self).elapsed_ms == if old(self).duration_ms >= 50 {
                old(self).duration_ms - 50
            } else {
                0
            },
            final(self).wf(),
    {
        self.elapsed_ms = self.duration_ms.saturating_sub(50);
    }
}

/// Where the player comes back after defeat.
#[derive(Clone, Debug, PartialEq, Eq)]
pub struct RespawnPoint {
    pub world: String,
    pub coord: HexCoord,
}

/// The player's character.
#[derive(Clone, Debug)]
pub struct Player {
    pub hex_coord: HexCoord,
    /// Cells still to walk, the next one first.
    pub path: Option<Vec<HexCoord>>,
    pub health: Health,
    pub respawn_point: RespawnPoint,
    /// Movement left in the current movement phase.
    pub remaining_speed: i32,
    pub move_timer: StepTimer,
    pub stats: Stats,
}

impl Player {
    /// A player at `(q, r)` with stats `(speed, damage, health)`; the step
    /// timer starts just short of firing.
    pub fn new(q: i32, r: i32, move_timer_duration_ms: u64, stats: (i32, i32, i32)) -> (p: Player)
        ensures
            p.hex_coord == (HexCoord { q, r }),
            p.path.is_none(),
            p.health.max_hp == (stats.2 + 5) * 10,
            p.health.hp == p.health.max_hp,
            p.respawn_point.world@ == "1"@,
            p.respawn_point.coord == (HexCoord { q: 0, r: 0 }),
            p.remaining_speed == stats.0,
            p.stats == (Stats { speed: stats.0, damage: stats.1, health: stats.2 }),
            p.move_timer.duration_ms == move_timer_duration_ms,
            p.move_timer.wf(),
    {
        let mut timer = StepTimer::new(move_timer_duration_ms);
        timer.set_almost_finished();
        let hp = (stats.2 as i64 + 5) * 10;
        proof {
            reveal_strlit("1");
        }
        Player {
            hex_coord: HexCoord::new(q, r),
            path: None,
            move_timer: timer,
            health: Health::new(hp),
            respawn_point: RespawnPoint { world: "1".to_owned(), coord: HexCoord::new(0, 0) },
            remaining_speed: stats.0,
            stats: Stats { speed: stats.0, damage: stats.1, health: stats.2 },
        }
    }

    /// Sets the step timer just short of firing.
    pub fn reset_move_timer(&mut self)
        ensures
            final(self).move_timer.duration_ms == old(self).move_timer.duration_ms,
            final(self).move_timer.elapsed_ms == if old(self).move_timer.duration_ms >= 50 {
                old(self).move_timer.duration_ms - 50
            } else {
                0
            },
            final(self).hex_coord == old(self).hex_coord,
            final(self).path == old(self).path,
            final(self).health == old(self).health,
            final(self).respawn_point == old(self).respawn_point,
            final(self).remaining_speed == old(self).remaining_speed,
            final(self).stats == old(self).stats,
    {
        self.move_timer.set_almost_finished();
    }
}

/// An enemy of the encounter.
#[derive(Clone, Debug)]
pub struct Enemy {
    pub hex_coord: HexCoord,
    /// Cells still to walk this turn, the next one first.
    pub path: Option<Vec<HexCoord>>,
    pub attack_range: i32,
    pub movement_range: i32,
    pub damage: i64,
    pub health: Health,
    /// Set once the enemy has acted in the current enemy phase.
    pub ended_turn: bool,
    pub move_timer: StepTimer,
}

/// Time between two steps of an enemy, in milliseconds.
pub const ENEMY_STEP_MS: u64 = 500;

impl Enemy {
    pub fn new(q: i32, r: i32, attack_range: i32, movement_range: i32, damage: i64, hp: i64) -> (e: Enemy)
        ensures
            e.hex_coord == (HexCoord { q, r }),
            e.path.is_none(),
            e.attack_range == attack_range,
            e.movement_range == movement_range,
            e.damage == damage,
            e.health == (Health { max_hp: hp, hp }),
            !e.ended_turn,
            e.move_timer == (StepTimer { duration_ms: ENEMY_STEP_MS, elapsed_ms: 0 }),
    {
        Enemy {
            hex_coord: HexCoord::new(q, r),
            path: None,
            move_timer: StepTimer::new(ENEMY_STEP_MS),
            attack_range,
            movement_range,
            damage,
            health: Health::new(hp),
            ended_turn: false,
        }
    }
}

} // verus!
