//! Turning a clicked tile into a queued path for the player.
use vstd::prelude::*;
use crate::actors::Player;
use crate::astar::{anchor_cells, astar, far_from_edge, is_reachable, is_walk};
use crate::combat::{CombatManager, Phase, Turn};
use crate::hex::{HexCoord, contains_coord};

verus! {

/// The cells that block a mover standing on `me`: the obstructed cells and the
/// occupied ones, in that order, without `me` itself.
pub open spec fn blocker_cells(obstructed: Seq<HexCoord>, occupied: Seq<HexCoord>, me: HexCoord) -> Seq<HexCoord> {
    (obstructed + occupied).filter(other_than(me))
}

pub open spec fn other_than(me: HexCoord) -> spec_fn(HexCoord) -> bool {
    |x: HexCoord| x != me
}

/// The steps a mover with `budget` moves takes along the walk `w`: the walk
/// without its first cell, cut to at most `budget` cells.
pub open spec fn steps_within(w: Seq<HexCoord>, budget: int) -> Seq<HexCoord> {
    let n = if budget < 0 { 0 } else { budget };
    if w.len() <= 1 {
        Seq::empty()
    } else if w.len() - 1 <= n {
        w.subrange(1, w.len() as int)
    } else {
        w.subrange(1, n + 1)
    }
}

/// Every cell of the sequence is far from the edge of the `i32` range.
pub open spec fn all_far_from_edge(s: Seq<HexCoord>) -> bool {
    forall|i: int| 0 <= i < s.len() ==> far_from_edge(#[trigger] s[i])
}

/// Builds the blocker list for a mover standing on `me`.
pub fn blockers(obstructed: &Vec<HexCoord>, occupied: &Vec<HexCoord>, me: &HexCoord) -> (b: Vec<HexCoord>)
    ensures
        b@ == blocker_cells(obstructed@, occupied@, *me),
{
    let ghost all = obstructed@ + occupied@;
    let ghost pred = other_than(*me);
    let mut b: Vec<HexCoord> = Vec::new();
    let mut i: usize = 0;
    assert(all.take(0) =~= Seq::<HexCoord>::empty());
    while i < obstructed.len()
        invariant
            all == obstructed@ + occupied@,
            pred == other_than(*me),
            i <= obstructed@.len(),
            b@ == all.take(i as int).filter(pred),
        decreases obstructed@.len() - i,
    {
        let c = obstructed[i];
        proof {
            assert(all.take(i + 1) =~= all.take(i as int).push(c));
            all.take(i as int).lemma_filter_push(c, pred);
        }
        if c != *me {
            b.push(c);
        }
        i = i + 1;
    }
    let mut j: usize = 0;
    while j < occupied.len()
        invariant
            all == obstructed@ + occupied@,
            pred == other_than(*me),
            j <= occupied@.len(),
            b@ == all.take(obstructed@.len() + j).filter(pred),
        decreases occupied@.len() - j,
    {
        let c = occupied[j];
        let ghost k = obstructed@.len() + j;
        proof {
            assert(all.take(k + 1) =~= all.take(k).push(c));
            all.take(k).lemma_filter_push(c, pred);
        }
        if c != *me {
            b.push(c);
        }
        j = j + 1;
    }
    assert(all.take(all.len() as int) =~= all);
    b
}

/// Every blocker comes from the obstructed or occupied cells.
pub proof fn lemma_blockers_far_from_edge(obstructed: Seq<HexCoord>, occupied: Seq<HexCoord>, me: HexCoord)
    requires
        all_far_from_edge(obstructed),
        all_far_from_edge(occupied),
    ensures
        all_far_from_edge(blocker_cells(obstructed, occupied, me)),
{
    let all = obstructed + occupied;
    let pred = other_than(me);
    assert forall|i: int| 0 <= i < blocker_cells(obstructed, occupied, me).len() implies far_from_edge(
        #[trigger] blocker_cells(obstructed, occupied, me)[i],
    ) by {
        let c = all.filter(pred)[i];
        assert(all.filter(pred).contains(c));
        all.lemma_filter_contains_rev(pred, c);
        let k = choose|k: int| 0 <= k < all.len() && all[k] == c;
        if k < obstructed.len() {
            assert(all[k] == obstructed[k]);
        } else {
            assert(all[k] == occupied[k - obstructed.len()]);
        }
    }
}

/// The anchor cells of a search are all far from the edge.
pub proof fn lemma_anchors_far_from_edge(start: HexCoord, goal: HexCoord, b: Seq<HexCoord>)
    requires
        far_from_edge(start),
        far_from_edge(goal),
        all_far_from_edge(b),
    ensures
        forall|i: int| 0 <= i < anchor_cells(start, goal, b).len() ==> far_from_edge(#[trigger] anchor_cells(start, goal, b)[i]),
{
    assert forall|i: int| 0 <= i < anchor_cells(start, goal, b).len() implies far_from_edge(#[trigger] anchor_cells(start, goal, b)[i]) by {
        if i >= 2 {
            assert(anchor_cells(start, goal, b)[i] == b[i - 2]);
        }
    }
}

/// The walk without its first cell, cut to at most `budget` steps.
pub fn steps_within_budget(path: &Vec<HexCoord>, budget: i32) -> (steps: Vec<HexCoord>)
    ensures
        steps@ == steps_within(path@, budget as int),
{
    let mut steps: Vec<HexCoord> = Vec::new();
    if path.len() <= 1 {
        assert(steps@ =~= steps_within(path@, budget as int));
        return steps;
    }
    let n: usize = if budget < 0 { 0 } else { budget as usize };
    let end: usize = if path.len() - 1 <= n { path.len() } else { n + 1 };
    let mut i: usize = 1;
    while i < end
        invariant
            1 <= i <= end,
            end <= path@.len(),
            steps@ == path@.subrange(1, i as int),
        decreases end - i,
    {
        steps.push(path[i]);
        assert(path@.subrange(1, i + 1) =~= path@.subrange(1, i as int).push(path@[i as int]));
        i = i + 1;
    }
    assert(steps@ =~= steps_within(path@, budget as int));
    steps
}

/// A click on `goal` starts a walk when the player is not already walking,
/// the goal is neither the player's cell nor obstructed nor occupied, and,
/// during an encounter, it is the movement phase.
pub open spec fn move_allowed(player: Player, goal: HexCoord, obstructed: Seq<HexCoord>, occupied: Seq<HexCoord>, combat: Option<CombatManager>) -> bool {
    &&& player.path.is_none()
    &&& goal != player.hex_coord
    &&& !obstructed.contains(goal)
    &&& !occupied.contains(goal)
    &&& match combat {
        Some(m) => m.turn == Turn::Player(Phase::Movement),
        None => true,
    }
}

/// The player clicked `goal`. When the move is allowed and a walk exists
/// round the obstructed and occupied cells, it is queued: outside an
/// encounter the whole walk, during one only the steps the remaining speed
/// pays for, which are taken from it. Returns whether a walk was queued.
pub fn move_player(
    player: &mut Player,
    goal: &HexCoord,
    obstructed: &Vec<HexCoord>,
    occupied: &Vec<HexCoord>,
    combat: &Option<CombatManager>,
) -> (queued: bool)
    requires
        far_from_edge(old(player).hex_coord),
        far_from_edge(*goal),
        all_far_from_edge(obstructed@),
        all_far_from_edge(occupied@),
    ensures
        queued == (move_allowed(*old(player), *goal, obstructed@, occupied@, *combat) && is_reachable(
            old(player).hex_coord,
            *goal,
            blocker_cells(obstructed@, occupied@, old(player).hex_coord),
        )),
        !queued ==> *final(player) == *old(player),
        queued ==> exists|w: Seq<HexCoord>| {
            &&& is_walk(w, old(player).hex_coord, *goal, blocker_cells(obstructed@, occupied@, old(player).hex_coord))
            &&& w[0] == old(player).hex_coord
            &&& w[w.len() - 1] == *goal
            &&& final(player).path is Some
            &&& if combat.is_some() {
                &&& final(player).path->0@ == steps_within(w, old(player).remaining_speed as int)
                &&& final(player).remaining_speed == old(player).remaining_speed - final(player).path->0@.len()
            } else {
                &&& final(player).path->0@ == w
                &&& final(player).remaining_speed == old(player).remaining_speed
            }
        },
        queued ==> final(player).hex_coord == old(player).hex_coord && final(player).health == old(player).health
            && final(player).respawn_point == old(player).respawn_point && final(player).move_timer == old(player).move_timer
            && final(player).stats == old(player).stats,
{
    if player.path.is_some() || *goal == player.hex_coord || contains_coord(obstructed, goal) || contains_coord(occupied, goal) {
        return false;
    }
    match combat {
        Some(m) => {
            if m.turn != Turn::Player(Phase::Movement) {
                return false;
            }
        },
        None => {},
    }
    let start = player.hex_coord;
    let b = blockers(obstructed, occupied, &start);
    proof {
        lemma_blockers_far_from_edge(obstructed@, occupied@, start);
        lemma_anchors_far_from_edge(start, *goal, b@);
    }
    match astar(start, *goal, &b) {
        None => false,
        Some(w) => {
            if combat.is_some() {
                let steps = steps_within_budget(&w, player.remaining_speed);
                let taken = steps.len();
                assert(taken <= player.remaining_speed || player.remaining_speed < 0);
                player.remaining_speed = if taken == 0 { player.remaining_speed } else { player.remaining_speed - taken as i32 };
                player.path = Some(steps);
            } else {
                player.path = Some(w);
            }
            true
        },
    }
}

} // verus!
