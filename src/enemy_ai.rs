//! The enemies' side of an encounter: each enemy walks toward the player,
//! strikes once in range and then ends its turn.
use vstd::prelude::*;
use crate::actors::{Enemy, Health, Player, lose_hp, lose_hp_exec, timer_after, timer_fires};
use crate::astar::{astar, far_from_edge, is_reachable, is_walk};
use crate::combat::{CombatManager, Phase, Turn};
use crate::hex::{HexCoord, hex_dist, hex_distance_wide};
use crate::movement::{
    all_far_from_edge, blocker_cells, blockers, lemma_anchors_far_from_edge, lemma_blockers_far_from_edge,
    steps_within, steps_within_budget,
};

verus! {

/// The cells the enemy still means to walk.
pub open spec fn steps_of(e: Enemy) -> Seq<HexCoord> {
    match e.path {
        Some(v) => v@,
        None => Seq::empty(),
    }
}

/// The cells taken at the start of the enemy phase: the player's, then each enemy's.
pub open spec fn occupied_cells(player: HexCoord, enemies: Seq<Enemy>) -> Seq<HexCoord> {
    seq![player] + enemies.map_values(|e: Enemy| e.hex_coord)
}

/// An enemy without a path looks for a walk to `target` round the blockers
/// `b`: it keeps the steps its movement range allows, or ends its turn when
/// there is no walk. An enemy with a path keeps it.
pub open spec fn enemy_planned(e: Enemy, target: HexCoord, b: Seq<HexCoord>, planned: Enemy) -> bool {
    if e.path is Some {
        planned == e
    } else if !is_reachable(e.hex_coord, target, b) {
        planned == Enemy { ended_turn: true, ..e }
    } else {
        &&& planned.path is Some
        &&& planned == Enemy { path: planned.path, ..e }
        &&& exists|w: Seq<HexCoord>|
            is_walk(w, e.hex_coord, target, b) && w[0] == e.hex_coord && w[w.len() - 1] == target
                && planned.path->0@ == steps_within(w, e.movement_range as int)
    }
}

/// One tick of `delta` for an enemy with a plan, the player standing on `p`
/// with `hp` hit points. When the step timer fires, an enemy out of range
/// takes its next step, and an enemy in range (after that step) strikes and
/// ends its turn. An enemy left without steps ends its turn.
pub open spec fn enemy_advanced(e: Enemy, after: Enemy, p: HexCoord, hp: i64, hp_after: i64, delta: u64) -> bool {
    let fired = timer_fires(e.move_timer, delta);
    let s = steps_of(e);
    let moves = fired && hex_dist(e.hex_coord, p) > e.attack_range && s.len() > 0;
    let pos = if moves { s[0] } else { e.hex_coord };
    let rest = if moves { s.subrange(1, s.len() as int) } else { s };
    let strikes = fired && hex_dist(pos, p) <= e.attack_range;
    &&& after.hex_coord == pos
    &&& after.move_timer == timer_after(e.move_timer, delta)
    &&& hp_after == if strikes { lose_hp(hp, e.damage as int) } else { hp }
    &&& after.ended_turn == (strikes || rest.len() == 0)
    &&& if after.ended_turn { after.path is None } else { after.path is Some && steps_of(after) == rest }
    &&& after.attack_range == e.attack_range
    &&& after.movement_range == e.movement_range
    &&& after.damage == e.damage
    &&& after.health == e.health
}

/// One tick of the enemy phase for one enemy; an enemy that has ended its
/// turn does nothing.
pub open spec fn enemy_tick(e: Enemy, after: Enemy, p: HexCoord, b: Seq<HexCoord>, hp: i64, hp_after: i64, delta: u64) -> bool {
    if e.ended_turn {
        after == e && hp_after == hp
    } else {
        exists|planned: Enemy|
            enemy_planned(e, p, b, planned) && if planned.ended_turn {
                after == planned && hp_after == hp
            } else {
                enemy_advanced(planned, after, p, hp, hp_after, delta)
            }
    }
}

/// Gives an enemy without a path its steps toward `target`.
fn plan_enemy_path(e: &mut Enemy, target: &HexCoord, b: &Vec<HexCoord>)
    requires
        far_from_edge(old(e).hex_coord),
        far_from_edge(*target),
        all_far_from_edge(b@),
    ensures
        enemy_planned(*old(e), *target, b@, *final(e)),
{
    if e.path.is_some() {
        return;
    }
    proof {
        lemma_anchors_far_from_edge(e.hex_coord, *target, b@);
    }
    match astar(e.hex_coord, *target, b) {
        None => {
            e.ended_turn = true;
        },
        Some(w) => {
            let steps = steps_within_budget(&w, e.movement_range);
            e.path = Some(steps);
        },
    }
}

/// Ticks an enemy that has a plan; `hp` is the player's.
fn advance_enemy(e: &mut Enemy, player_coord: &HexCoord, hp: &mut i64, delta: u64)
    requires
        old(e).move_timer.wf(),
        !old(e).ended_turn,
    ensures
        enemy_advanced(*old(e), *final(e), *player_coord, *old(hp), *final(hp), delta),
        final(e).move_timer.wf(),
{
    let ghost s = steps_of(*e);
    let fired = e.move_timer.tick(delta);
    let mut steps: Vec<HexCoord> = match e.path.take() {
        Some(v) => v,
        None => Vec::new(),
    };
    assert(steps@ == s);
    if fired {
        if hex_distance_wide(&e.hex_coord, player_coord) > e.attack_range as i64 && steps.len() > 0 {
            let next = steps.remove(0);
            assert(steps@ =~= s.subrange(1, s.len() as int));
            e.hex_coord = next;
        }
        if hex_distance_wide(&e.hex_coord, player_coord) <= e.attack_range as i64 {
            *hp = lose_hp_exec(*hp, e.damage);
            e.ended_turn = true;
            e.path = None;
            return;
        }
    }
    if steps.len() == 0 {
        e.ended_turn = true;
        e.path = None;
    } else {
        e.path = Some(steps);
    }
}

/// One tick of the enemy phase for one enemy, with the player on
/// `player_coord` holding `hp` hit points; the enemy's blockers are the
/// obstructed and occupied cells but its own.
pub fn enemy_take_turn(
    e: &mut Enemy,
    player_coord: &HexCoord,
    hp: &mut i64,
    obstructed: &Vec<HexCoord>,
    occupied: &Vec<HexCoord>,
    delta: u64,
)
    requires
        far_from_edge(old(e).hex_coord),
        far_from_edge(*player_coord),
        all_far_from_edge(obstructed@),
        all_far_from_edge(occupied@),
        old(e).move_timer.wf(),
    ensures
        enemy_tick(
            *old(e),
            *final(e),
            *player_coord,
            blocker_cells(obstructed@, occupied@, old(e).hex_coord),
            *old(hp),
            *final(hp),
            delta,
        ),
        final(e).move_timer.wf(),
{
    if e.ended_turn {
        return;
    }
    let ghost before = *e;
    let b = blockers(obstructed, occupied, &e.hex_coord);
    proof {
        lemma_blockers_far_from_edge(obstructed@, occupied@, e.hex_coord);
    }
    plan_enemy_path(e, player_coord, &b);
    let ghost planned = *e;
    if e.ended_turn {
        return;
    }
    advance_enemy(e, player_coord, hp, delta);
    assert(enemy_planned(before, *player_coord, b@, planned));
}

/// Lists the player's cell, then each enemy's.
fn occupied_by(player_coord: &HexCoord, enemies: &Vec<Enemy>) -> (occ: Vec<HexCoord>)
    ensures
        occ@ == occupied_cells(*player_coord, enemies@),
{
    let ghost f = |e: Enemy| e.hex_coord;
    let mut occ: Vec<HexCoord> = Vec::new();
    occ.push(*player_coord);
    let mut i: usize = 0;
    while i < enemies.len()
        invariant
            f == (|e: Enemy| e.hex_coord),
            i <= enemies@.len(),
            occ@ == seq![*player_coord] + enemies@.take(i as int).map_values(f),
        decreases enemies@.len() - i,
    {
        occ.push(enemies[i].hex_coord);
        assert(enemies@.take(i + 1).map_values(f) =~= enemies@.take(i as int).map_values(f).push(enemies@[i as int].hex_coord));
        assert(seq![*player_coord] + enemies@.take(i + 1).map_values(f) =~= (seq![*player_coord] + enemies@.take(i as int).map_values(f)).push(enemies@[i as int].hex_coord));
        i = i + 1;
    }
    assert(enemies@.take(enemies@.len() as int) =~= enemies@);
    occ
}

/// Whether every enemy has ended its turn.
fn all_ended(enemies: &Vec<Enemy>) -> (b: bool)
    ensures
        b == forall|j: int| 0 <= j < enemies@.len() ==> (#[trigger] enemies@[j]).ended_turn,
{
    let mut i: usize = 0;
    while i < enemies.len()
        invariant
            i <= enemies@.len(),
            forall|j: int| 0 <= j < i ==> (#[trigger] enemies@[j]).ended_turn,
        decreases enemies@.len() - i,
    {
        if !enemies[i].ended_turn {
            return false;
        }
        i = i + 1;
    }
    true
}

/// One tick of the enemy phase. Each enemy that has not ended its turn plans,
/// steps or strikes, against the cells as they stood at the start of the tick;
/// once all have ended their turn the player's turn begins with the
/// player's speed restored. Returns whether the player's turn began. Outside
/// the enemy phase, or with no enemies, nothing happens.
pub fn enemy_ai(
    combat_manager: &mut CombatManager,
    enemies: &mut Vec<Enemy>,
    player: &mut Player,
    obstructed: &Vec<HexCoord>,
    delta: u64,
) -> (turn_over: bool)
    requires
        far_from_edge(old(player).hex_coord),
        all_far_from_edge(obstructed@),
        forall|j: int| 0 <= j < old(enemies)@.len() ==> far_from_edge(#[trigger] old(enemies)@[j].hex_coord),
        forall|j: int| 0 <= j < old(enemies)@.len() ==> (#[trigger] old(enemies)@[j]).move_timer.wf(),
    ensures
        old(combat_manager).turn != Turn::Enemies || old(enemies)@.len() == 0 ==> {
            &&& !turn_over
            &&& *final(combat_manager) == *old(combat_manager)
            &&& final(enemies)@ == old(enemies)@
            &&& *final(player) == *old(player)
        },
        old(combat_manager).turn == Turn::Enemies && old(enemies)@.len() > 0 ==> {
            let n = old(enemies)@.len();
            let pc = old(player).hex_coord;
            let occ = occupied_cells(pc, old(enemies)@);
            &&& final(enemies)@.len() == n
            &&& exists|hps: Seq<i64>| {
                &&& hps.len() == n + 1
                &&& hps[0] == old(player).health.hp
                &&& hps[n as int] == final(player).health.hp
                &&& forall|j: int| 0 <= j < n ==> enemy_tick(
                    #[trigger] old(enemies)@[j],
                    final(enemies)@[j],
                    pc,
                    blocker_cells(obstructed@, occ, old(enemies)@[j].hex_coord),
                    hps[j],
                    hps[j + 1],
                    delta,
                )
            }
            &&& turn_over == forall|j: int| 0 <= j < n ==> (#[trigger] final(enemies)@[j]).ended_turn
            &&& *final(combat_manager) == if turn_over {
                CombatManager { turn: Turn::Player(Phase::Movement), ..*old(combat_manager) }
            } else {
                *old(combat_manager)
            }
            &&& *final(player) == (Player {
                health: Health { hp: final(player).health.hp, ..old(player).health },
                remaining_speed: if turn_over { old(player).stats.speed } else { old(player).remaining_speed },
                ..*old(player)
            })
        },
{
    if combat_manager.turn != Turn::Enemies || enemies.len() == 0 {
        return false;
    }
    let ghost before = enemies@;
    let ghost p0 = *player;
    let pc = player.hex_coord;
    let occ = occupied_by(&pc, enemies);
    proof {
        assert forall|j: int| 0 <= j < occ@.len() implies far_from_edge(#[trigger] occ@[j]) by {
            if j > 0 {
                assert(occ@[j] == before[j - 1].hex_coord);
            }
        }
    }
    let ghost mut hps: Seq<i64> = seq![player.health.hp];
    let mut i: usize = 0;
    while i < enemies.len()
        invariant
            before.len() > 0,
            i <= enemies@.len(),
            enemies@.len() == before.len(),
            pc == p0.hex_coord,
            far_from_edge(pc),
            all_far_from_edge(obstructed@),
            all_far_from_edge(occ@),
            occ@ == occupied_cells(pc, before),
            forall|j: int| 0 <= j < before.len() ==> far_from_edge(#[trigger] before[j].hex_coord),
            forall|j: int| 0 <= j < before.len() ==> (#[trigger] before[j]).move_timer.wf(),
            forall|j: int| i <= j < before.len() ==> #[trigger] enemies@[j] == before[j],
            hps.len() == i + 1,
            hps[0] == p0.health.hp,
            hps[i as int] == player.health.hp,
            *player == (Player { health: Health { hp: player.health.hp, ..p0.health }, ..p0 }),
            forall|j: int| 0 <= j < i ==> enemy_tick(
                #[trigger] before[j],
                enemies@[j],
                pc,
                blocker_cells(obstructed@, occ@, before[j].hex_coord),
                hps[j],
                hps[j + 1],
                delta,
            ),
        decreases enemies@.len() - i,
    {
        let ghost prev = enemies@;
        enemy_take_turn(&mut enemies[i], &pc, &mut player.health.hp, obstructed, &occ, delta);
        proof {
            hps = hps.push(player.health.hp);
            assert forall|j: int| 0 <= j < i implies enemy_tick(
                #[trigger] before[j],
                enemies@[j],
                pc,
                blocker_cells(obstructed@, occ@, before[j].hex_coord),
                hps[j],
                hps[j + 1],
                delta,
            ) by {
                assert(enemies@[j] == prev[j]);
            }
        }
        i = i + 1;
    }
    let turn_over = all_ended(enemies);
    if turn_over {
        combat_manager.turn = Turn::Player(Phase::Movement);
        player.remaining_speed = player.stats.speed;
    }
    proof {
        assert(hps[before.len() as int] == player.health.hp);
    }
    turn_over
}

/// Whether an enemy is still standing.
pub open spec fn standing() -> spec_fn(Enemy) -> bool {
    |e: Enemy| e.health.hp > 0
}

/// Removes the defeated enemies, keeping the order of the others. When none
/// is left the encounter ends. Returns whether it ended.
pub fn update_enemy_health(combat: &mut Option<CombatManager>, enemies: &mut Vec<Enemy>) -> (cleared: bool)
    ensures
        final(enemies)@ == old(enemies)@.filter(standing()),
        cleared == (final(enemies)@.len() == 0),
        cleared ==> final(combat).is_none(),
        !cleared ==> *final(combat) == *old(combat),
{
    let ghost before = enemies@;
    let ghost p = standing();
    let ghost mut k: int = 0;
    let mut i: usize = 0;
    assert(before.take(0) =~= Seq::<Enemy>::empty());
    assert(enemies@ =~= before.take(0).filter(p) + before.subrange(0, before.len() as int));
    while i < enemies.len()
        invariant
            p == standing(),
            0 <= k <= before.len(),
            i == before.take(k).filter(p).len(),
            enemies@ == before.take(k).filter(p) + before.subrange(k, before.len() as int),
        decreases before.len() - k,
    {
        let ghost kept = before.take(k).filter(p);
        assert(enemies@[i as int] == before[k]);
        proof {
            assert(before.take(k + 1) =~= before.take(k).push(before[k]));
            before.take(k).lemma_filter_push(before[k], p);
        }
        if enemies[i].health.hp > 0 {
            assert(enemies@ =~= before.take(k + 1).filter(p) + before.subrange(k + 1, before.len() as int));
            i = i + 1;
        } else {
            let ghost prev = enemies@;
            enemies.remove(i);
            assert(enemies@ =~= before.take(k + 1).filter(p) + before.subrange(k + 1, before.len() as int));
        }
        proof {
            k = k + 1;
        }
    }
    assert(k == before.len());
    assert(before.take(k) =~= before);
    if enemies.len() == 0 {
        *combat = None;
        true
    } else {
        false
    }
}

/// A defeated player gets full health back at the respawn point and the
/// encounter ends. Returns whether that happened.
pub fn update_player_health(player: &mut Player, combat: &mut Option<CombatManager>) -> (defeated: bool)
    ensures
        defeated == (old(player).health.hp <= 0),
        defeated ==> {
            &&& *final(player) == (Player {
                health: Health { hp: old(player).health.max_hp, ..old(player).health },
                hex_coord: old(player).respawn_point.coord,
                ..*old(player)
            })
            &&& final(combat).is_none()
        },
        !defeated ==> *final(player) == *old(player) && *final(combat) == *old(combat),
{
    if player.health.hp > 0 {
        return false;
    }
    player.health.hp = player.health.max_hp;
    player.hex_coord = player.respawn_point.coord;
    *combat = None;
    true
}

} // verus!
