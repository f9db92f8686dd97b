//! The turn and phase state machine and the resolution of player actions.
use vstd::prelude::*;
use crate::actors::{Enemy, Health, Player, lose_hp, lose_hp_exec};
use crate::buttons::{AcitonType, GIState, ToggleButton};
use crate::hex::{
    HexCoord, contains_coord, get_neighbors, hex_dist, is_kth_neighbor, is_neighbor,
    lemma_distance_one_is_neighbor, lemma_neighbor_at_distance_one, neighbor_at,
};

verus! {

#[derive(Clone, Copy, Debug, PartialEq, Eq, Structural)]
pub enum Phase {
    Movement,
    Action1,
    Action2,
}

/// Whose turn it is.
#[derive(Clone, Copy, Debug, PartialEq, Eq, Structural)]
pub enum Turn {
    Player(Phase),
    Enemies,
}

/// The state of an encounter; it exists exactly while the encounter runs.
#[derive(Clone, Copy, Debug, PartialEq, Eq, Structural)]
pub struct CombatManager {
    pub turn: Turn,
    /// The action whose target the player is picking.
    pub player_action: Option<AcitonType>,
    /// Tells the interface to release every action button.
    pub reset_buttons: bool,
}

/// The turn after an `EndPhase` command.
pub open spec fn turn_after_end_phase(t: Turn) -> Turn {
    match t {
        Turn::Player(Phase::Movement) => Turn::Player(Phase::Action1),
        Turn::Player(Phase::Action1) => Turn::Player(Phase::Action2),
        Turn::Player(Phase::Action2) => Turn::Enemies,
        Turn::Enemies => Turn::Enemies,
    }
}

/// An `EndPhase` command is taken only on the player's turn with no action
/// waiting for its target.
pub open spec fn end_phase_allowed(m: CombatManager) -> bool {
    m.turn is Player && m.player_action.is_none()
}

/// The turn after a targeted action has been carried out.
pub open spec fn turn_after_action(t: Turn) -> Turn {
    match t {
        Turn::Player(Phase::Action1) => Turn::Player(Phase::Action2),
        Turn::Player(Phase::Action2) => Turn::Enemies,
        _ => t,
    }
}

/// The enemy at the start of an enemy phase.
pub open spec fn ready_for_turn(e: Enemy) -> Enemy {
    Enemy { ended_turn: false, ..e }
}

/// Entering the enemy phase clears every enemy's `ended_turn`; other turns
/// leave the enemies alone.
pub open spec fn enemies_on_entering(old_turn: Turn, new_turn: Turn, before: Seq<Enemy>, after: Seq<Enemy>) -> bool {
    &&& after.len() == before.len()
    &&& forall|i: int|
        0 <= i < before.len() ==> #[trigger] after[i] == if new_turn == Turn::Enemies && old_turn != Turn::Enemies {
            ready_for_turn(before[i])
        } else {
            before[i]
        }
}

/// The jump offsets of a running smack: two along the row, or two rows up or
/// down and one to either side.
pub open spec fn is_run_smack_target(p: HexCoord, t: HexCoord) -> bool {
    ||| t.r == p.r && (t.q == p.q + 2 || t.q == p.q - 2)
    ||| (t.r == p.r + 2 || t.r == p.r - 2) && (t.q == p.q + 1 || t.q == p.q - 1)
}

/// The cells an action may be aimed at from the player's cell `p`.
pub open spec fn is_legal_target(a: AcitonType, p: HexCoord, t: HexCoord, t_obstructed: bool) -> bool {
    match a {
        AcitonType::Fireball => !t_obstructed,
        AcitonType::Smack => is_neighbor(p, t),
        AcitonType::RunSmack => is_run_smack_target(p, t),
        AcitonType::EndPhase => false,
    }
}

/// How many times the player's damage stat an action deals.
pub open spec fn damage_multiplier(a: AcitonType) -> int {
    match a {
        AcitonType::Fireball => 10,
        AcitonType::Smack => 2,
        AcitonType::RunSmack => 5,
        AcitonType::EndPhase => 0,
    }
}

/// The enemy after an action dealing `amount` has hit cell `t`.
pub open spec fn hit(e: Enemy, t: HexCoord, amount: int) -> Enemy {
    if e.hex_coord == t {
        Enemy { health: Health { hp: lose_hp(e.health.hp, amount), ..e.health }, ..e }
    } else {
        e
    }
}

/// A cell far enough from the edge of the `i32` range for every jump target.
pub open spec fn jump_safe(c: HexCoord) -> bool {
    i32::MIN + 2 <= c.q <= i32::MAX - 2 && i32::MIN + 2 <= c.r <= i32::MAX - 2
}

/// The six cells a running smack can reach from `p`.
pub fn run_smack_targets(p: &HexCoord) -> (ts: Vec<HexCoord>)
    requires
        jump_safe(*p),
    ensures
        ts@.len() == 6,
        forall|t: HexCoord| ts@.contains(t) <==> is_run_smack_target(*p, t),
{
    let ts = vec![
        HexCoord::new(p.q + 2, p.r),
        HexCoord::new(p.q - 2, p.r),
        HexCoord::new(p.q + 1, p.r + 2),
        HexCoord::new(p.q + 1, p.r - 2),
        HexCoord::new(p.q - 1, p.r + 2),
        HexCoord::new(p.q - 1, p.r - 2),
    ];
    assert forall|t: HexCoord| ts@.contains(t) <==> is_run_smack_target(*p, t) by {
        if is_run_smack_target(*p, t) {
            if t.r == p.r && t.q == p.q + 2 {
                assert(ts@[0] == t);
            } else if t.r == p.r {
                assert(ts@[1] == t);
            } else if t.q == p.q + 1 && t.r == p.r + 2 {
                assert(ts@[2] == t);
            } else if t.q == p.q + 1 {
                assert(ts@[3] == t);
            } else if t.r == p.r + 2 {
                assert(ts@[4] == t);
            } else {
                assert(ts@[5] == t);
            }
        }
    }
    ts
}

/// Whether `action` may be aimed at the cell `target` from the player's cell.
pub fn is_legal_target_exec(action: AcitonType, player: &HexCoord, target: &HexCoord, target_obstructed: bool) -> (b: bool)
    requires
        jump_safe(*player),
    ensures
        b == is_legal_target(action, *player, *target, target_obstructed),
{
    match action {
        AcitonType::Fireball => !target_obstructed,
        AcitonType::Smack => {
            let ns = get_neighbors(player);
            let b = contains_coord(&ns, target);
            proof {
                if is_neighbor(*player, *target) {
                    let k: int = if is_kth_neighbor(*player, *target, 0) { 0 } else if is_kth_neighbor(*player, *target, 1) { 1 } else if is_kth_neighbor(*player, *target, 2) { 2 } else if is_kth_neighbor(*player, *target, 3) { 3 } else if is_kth_neighbor(*player, *target, 4) { 4 } else { 5 };
                    assert(ns@[k] == *target);
                }
                if b {
                    let k = choose|k: int| 0 <= k < ns@.len() && ns@[k] == *target;
                    assert(ns@[k] == neighbor_at(*player, k));
                    assert(is_kth_neighbor(*player, *target, k));
                }
            }
            b
        },
        AcitonType::RunSmack => {
            let ts = run_smack_targets(player);
            contains_coord(&ts, target)
        },
        AcitonType::EndPhase => false,
    }
}

/// Clears `ended_turn` on every enemy.
fn ready_enemies(enemies: &mut Vec<Enemy>)
    ensures
        final(enemies)@.len() == old(enemies)@.len(),
        forall|i: int| 0 <= i < old(enemies)@.len() ==> #[trigger] final(enemies)@[i] == ready_for_turn(old(enemies)@[i]),
{
    let ghost before = enemies@;
    let mut i: usize = 0;
    while i < enemies.len()
        invariant
            i <= enemies@.len(),
            enemies@.len() == before.len(),
            forall|j: int| 0 <= j < i ==> #[trigger] enemies@[j] == ready_for_turn(before[j]),
            forall|j: int| i <= j < before.len() ==> #[trigger] enemies@[j] == before[j],
        decreases enemies@.len() - i,
    {
        enemies[i].ended_turn = false;
        i = i + 1;
    }
}

/// A committed target is taken when an action other than `EndPhase` is
/// selected and the target is legal for it.
pub open spec fn commit_accepted(m: CombatManager, p: HexCoord, t: HexCoord, t_obstructed: bool) -> bool {
    match m.player_action {
        Some(a) => is_legal_target(a, p, t, t_obstructed),
        None => false,
    }
}

/// The damage the selected action deals.
pub open spec fn selected_damage(m: CombatManager, player: Player) -> int {
    match m.player_action {
        Some(a) => damage_multiplier(a) * player.stats.damage,
        None => 0,
    }
}

/// Deals `amount` to every enemy standing on `target`.
fn hit_enemies_at(enemies: &mut Vec<Enemy>, target: &HexCoord, amount: i64)
    ensures
        final(enemies)@.len() == old(enemies)@.len(),
        forall|i: int| 0 <= i < old(enemies)@.len() ==> #[trigger] final(enemies)@[i] == hit(old(enemies)@[i], *target, amount as int),
{
    let ghost before = enemies@;
    let mut i: usize = 0;
    while i < enemies.len()
        invariant
            i <= enemies@.len(),
            enemies@.len() == before.len(),
            forall|j: int| 0 <= j < i ==> #[trigger] enemies@[j] == hit(before[j], *target, amount as int),
            forall|j: int| i <= j < before.len() ==> #[trigger] enemies@[j] == before[j],
        decreases enemies@.len() - i,
    {
        if enemies[i].hex_coord == *target {
            let hp = lose_hp_exec(enemies[i].health.hp, amount);
            enemies[i].health.hp = hp;
        }
        i = i + 1;
    }
}

impl CombatManager {
    /// A fresh encounter: the player moves first and nothing is selected.
    pub fn new() -> (m: CombatManager)
        ensures
            m.turn == Turn::Player(Phase::Movement),
            m.player_action.is_none(),
            !m.reset_buttons,
    {
        CombatManager { turn: Turn::Player(Phase::Movement), player_action: None, reset_buttons: false }
    }

    /// Ends the current phase of the player's turn. Refused, with nothing
    /// changed, on the enemies' turn or while an action awaits its target.
    /// Entering the enemy phase readies every enemy.
    pub fn end_phase(&mut self, enemies: &mut Vec<Enemy>) -> (accepted: bool)
        ensures
            accepted == end_phase_allowed(*old(self)),
            accepted ==> *final(self) == (CombatManager { turn: turn_after_end_phase(old(self).turn), ..*old(self) }),
            !accepted ==> *final(self) == *old(self),
            enemies_on_entering(old(self).turn, final(self).turn, old(enemies)@, final(enemies)@),
    {
        if self.player_action.is_some() {
            return false;
        }
        match self.turn {
            Turn::Player(Phase::Movement) => {
                self.turn = Turn::Player(Phase::Action1);
                true
            },
            Turn::Player(Phase::Action1) => {
                self.turn = Turn::Player(Phase::Action2);
                true
            },
            Turn::Player(Phase::Action2) => {
                self.turn = Turn::Enemies;
                ready_enemies(enemies);
                true
            },
            Turn::Enemies => false,
        }
    }

    /// A press on an action button. `EndPhase` ends the phase; any other
    /// action, pressed in an action phase, flips its toggle and selects the
    /// action when the toggle comes on or drops the selection when it goes
    /// off. Returns the lock state the world should take, if it changes.
    pub fn press_action_button(&mut self, action: AcitonType, toggle: &mut ToggleButton, enemies: &mut Vec<Enemy>) -> (lock: Option<GIState>)
        ensures
            action == AcitonType::EndPhase ==> {
                &&& lock == if end_phase_allowed(*old(self)) { Some(GIState::Locked) } else { None::<GIState> }
                &&& *final(toggle) == *old(toggle)
                &&& end_phase_allowed(*old(self)) ==> *final(self) == (CombatManager { turn: turn_after_end_phase(old(self).turn), ..*old(self) })
                &&& !end_phase_allowed(*old(self)) ==> *final(self) == *old(self)
                &&& enemies_on_entering(old(self).turn, final(self).turn, old(enemies)@, final(enemies)@)
            },
            action != AcitonType::EndPhase ==> {
                &&& final(enemies)@ == old(enemies)@
                &&& if old(self).turn == Turn::Player(Phase::Action1) || old(self).turn == Turn::Player(Phase::Action2) {
                    &&& final(toggle).is_on == !old(toggle).is_on
                    &&& *final(self) == (CombatManager {
                        player_action: if final(toggle).is_on { Some(action) } else { None },
                        ..*old(self)
                    })
                    &&& lock == Some(if final(toggle).is_on { GIState::Unlocked } else { GIState::Locked })
                } else {
                    &&& *final(toggle) == *old(toggle)
                    &&& *final(self) == *old(self)
                    &&& lock.is_none()
                }
            },
    {
        match action {
            AcitonType::EndPhase => {
                if self.end_phase(enemies) {
                    Some(GIState::Locked)
                } else {
                    None
                }
            },
            _ => {
                if self.turn == Turn::Player(Phase::Action1) || self.turn == Turn::Player(Phase::Action2) {
                    toggle.is_on = !toggle.is_on;
                    if toggle.is_on {
                        self.player_action = Some(action);
                        Some(GIState::Unlocked)
                    } else {
                        self.player_action = None;
                        Some(GIState::Locked)
                    }
                } else {
                    None
                }
            },
        }
    }

    /// The player commits the selected action on the cell `target`. When the
    /// action is selected and the target is legal for it, every enemy on the
    /// target takes the action's damage, the selection is cleared, the buttons
    /// are to be released and the turn moves on; otherwise nothing changes.
    pub fn commit_action(&mut self, player: &Player, target: &HexCoord, target_obstructed: bool, enemies: &mut Vec<Enemy>) -> (applied: bool)
        requires
            jump_safe(player.hex_coord),
        ensures
            applied == commit_accepted(*old(self), player.hex_coord, *target, target_obstructed),
            applied ==> {
                &&& *final(self) == (CombatManager {
                    turn: turn_after_action(old(self).turn),
                    player_action: None,
                    reset_buttons: true,
                })
                &&& final(enemies)@.len() == old(enemies)@.len()
                &&& forall|i: int| 0 <= i < old(enemies)@.len() ==> {
                    let h = hit(old(enemies)@[i], *target, selected_damage(*old(self), *player));
                    #[trigger] final(enemies)@[i] == if final(self).turn == Turn::Enemies && old(self).turn != Turn::Enemies {
                        ready_for_turn(h)
                    } else {
                        h
                    }
                }
            },
            !applied ==> *final(self) == *old(self) && final(enemies)@ == old(enemies)@,
    {
        let action = match self.player_action {
            Some(a) => a,
            None => {
                return false;
            },
        };
        if !is_legal_target_exec(action, &player.hex_coord, target, target_obstructed) {
            return false;
        }
        let amount: i64 = match action {
            AcitonType::Fireball => 10 * player.stats.damage as i64,
            AcitonType::Smack => 2 * player.stats.damage as i64,
            AcitonType::RunSmack => 5 * player.stats.damage as i64,
            AcitonType::EndPhase => 0,
        };
        hit_enemies_at(enemies, target, amount);
        self.reset_buttons = true;
        self.player_action = None;
        if self.turn == Turn::Player(Phase::Action1) {
            self.turn = Turn::Player(Phase::Action2);
        } else if self.turn == Turn::Player(Phase::Action2) {
            self.turn = Turn::Enemies;
            ready_enemies(enemies);
        }
        true
    }
}


/// When the interface has been told to release the buttons, turns every
/// toggle off and clears the request. Returns whether it did.
pub fn button_reset_system(combat_manager: &mut CombatManager, toggles: &mut Vec<ToggleButton>) -> (reset: bool)
    ensures
        reset == old(combat_manager).reset_buttons,
        *final(combat_manager) == (CombatManager { reset_buttons: false, ..*old(combat_manager) }),
        final(toggles)@.len() == old(toggles)@.len(),
        forall|i: int| 0 <= i < old(toggles)@.len() ==> (#[trigger] final(toggles)@[i]).is_on == (!reset && old(toggles)@[i].is_on),
{
    if !combat_manager.reset_buttons {
        return false;
    }
    combat_manager.reset_buttons = false;
    let ghost before = toggles@;
    let mut i: usize = 0;
    while i < toggles.len()
        invariant
            i <= toggles@.len(),
            toggles@.len() == before.len(),
            forall|j: int| 0 <= j < i ==> !(#[trigger] toggles@[j]).is_on,
            forall|j: int| i <= j < before.len() ==> #[trigger] toggles@[j] == before[j],
        decreases toggles@.len() - i,
    {
        toggles[i].is_on = false;
        i = i + 1;
    }
    true
}

/// From the first phase of the player's turn, three `EndPhase` commands reach
/// the enemies' turn, and a fourth is refused.
pub proof fn lemma_three_end_phases_reach_enemies(m: CombatManager)
    requires
        m.turn == Turn::Player(Phase::Movement),
        m.player_action.is_none(),
    ensures
        end_phase_allowed(m),
        ({
            let m1 = CombatManager { turn: turn_after_end_phase(m.turn), ..m };
            let m2 = CombatManager { turn: turn_after_end_phase(m1.turn), ..m1 };
            let m3 = CombatManager { turn: turn_after_end_phase(m2.turn), ..m2 };
            &&& end_phase_allowed(m1)
            &&& end_phase_allowed(m2)
            &&& m3.turn == Turn::Enemies
            &&& !end_phase_allowed(m3)
        }),
{
}

/// A committed smack is taken exactly on the cells at distance one from the
/// player, and takes two times the player's damage from an enemy there.
pub proof fn lemma_smack_resolution(m: CombatManager, player: Player, t: HexCoord, t_obstructed: bool, e: Enemy)
    requires
        m.player_action == Some(AcitonType::Smack),
        e.hex_coord == t,
        i64::MIN <= e.health.hp - 2 * player.stats.damage <= i64::MAX,
    ensures
        commit_accepted(m, player.hex_coord, t, t_obstructed) <==> hex_dist(player.hex_coord, t) == 1,
        selected_damage(m, player) == 2 * player.stats.damage,
        hit(e, t, selected_damage(m, player)).health.hp == e.health.hp - 2 * player.stats.damage,
{
    let p = player.hex_coord;
    if is_neighbor(p, t) {
        lemma_neighbor_at_distance_one(p, t);
    }
    if hex_dist(p, t) == 1 {
        lemma_distance_one_is_neighbor(p, t);
    }
}

} // verus!
