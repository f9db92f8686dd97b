//! A* search over the hex grid.
//!
//! Obstruction gates expansion: the search never steps *out of* an obstructed
//! cell, but it may step *into* one. The search is confined to the axial
//! parallelogram spanned by the start, the goal and every obstructed cell,
//! widened by one cell on each side; nothing blocks the ring round it, so a
//! goal that can be reached at all can be reached inside it.
use vstd::prelude::*;
use vstd::set_lib::*;
use vstd::multiset::Multiset;
use crate::frontier::Frontier;
use std::collections::HashMap;
use crate::hex::{
    HexCoord, axial_q, between, contains_coord, get_neighbors, hex_dist, hex_distance_wide,
    is_kth_neighbor, is_neighbor, lemma_hex_distance_triangle, lemma_neighbor_at_distance_one,
    lemma_on_route_between, lemma_toward_goal, neighbor_at, offset2axial, toward_index,
};

verus! {

/// The cells that fix the search area: start, goal and the obstructed cells.
pub open spec fn anchor_cells(start: HexCoord, goal: HexCoord, obstructed: Seq<HexCoord>) -> Seq<HexCoord> {
    seq![start, goal] + obstructed
}

/// `c` lies within one cell of the axial parallelogram spanned by `cells`:
/// its axial column and its row are each at most one beyond those of `cells`.
pub open spec fn in_search_area(c: HexCoord, cells: Seq<HexCoord>) -> bool {
    &&& exists|i: int| 0 <= i < cells.len() && axial_q(#[trigger] cells[i]) <= axial_q(c) + 1
    &&& exists|i: int| 0 <= i < cells.len() && axial_q(c) <= axial_q(#[trigger] cells[i]) + 1
    &&& exists|i: int| 0 <= i < cells.len() && #[trigger] cells[i].r <= c.r + 1
    &&& exists|i: int| 0 <= i < cells.len() && c.r <= #[trigger] cells[i].r + 1
}

/// One move of the search: from a non-obstructed cell of the area to one of
/// its neighbours in the area.
pub open spec fn is_step(a: HexCoord, b: HexCoord, start: HexCoord, goal: HexCoord, obstructed: Seq<HexCoord>) -> bool {
    &&& in_search_area(a, anchor_cells(start, goal, obstructed))
    &&& in_search_area(b, anchor_cells(start, goal, obstructed))
    &&& !obstructed.contains(a)
    &&& is_neighbor(a, b)
}

/// `p` is a non-empty sequence of cells, each reached from the one before by a step.
pub open spec fn is_walk(p: Seq<HexCoord>, start: HexCoord, goal: HexCoord, obstructed: Seq<HexCoord>) -> bool {
    &&& p.len() >= 1
    &&& forall|i: int| 0 <= i < p.len() - 1 ==> is_step(#[trigger] p[i], p[i + 1], start, goal, obstructed)
}

/// Some walk leads from `start` to `goal`.
pub open spec fn is_reachable(start: HexCoord, goal: HexCoord, obstructed: Seq<HexCoord>) -> bool {
    exists|p: Seq<HexCoord>|
        is_walk(p, start, goal, obstructed) && p[0] == start && p[p.len() - 1] == goal
}

/// A walk has at least one cell more than the hex distance between its ends.
pub proof fn lemma_walk_at_least_distance(p: Seq<HexCoord>, start: HexCoord, goal: HexCoord, obstructed: Seq<HexCoord>)
    requires
        is_walk(p, start, goal, obstructed),
    ensures
        p.len() >= hex_dist(p[0], p[p.len() - 1]) + 1,
    decreases p.len(),
{
    if p.len() > 1 {
        let q = p.drop_last();
        assert forall|i: int| 0 <= i < q.len() - 1 implies is_step(#[trigger] q[i], q[i + 1], start, goal, obstructed) by {
            assert(is_step(p[i], p[i + 1], start, goal, obstructed));
        }
        lemma_walk_at_least_distance(q, start, goal, obstructed);
        let n = p.len();
        assert(is_step(p[n - 2], p[n - 1], start, goal, obstructed));
        lemma_neighbor_at_distance_one(p[n - 2], p[n - 1]);
        lemma_hex_distance_triangle(p[0], p[n - 2], p[n - 1]);
    }
}

/// Largest coordinate a search may be anchored at.
pub const COORD_LIMIT: i32 = 0x2000_0000;

/// A cell far enough from the edge of the `i32` range that every cell of a
/// search area it anchors, and each neighbour of one, is representable.
pub open spec fn far_from_edge(c: HexCoord) -> bool {
    -COORD_LIMIT <= c.q <= COORD_LIMIT && -COORD_LIMIT <= c.r <= COORD_LIMIT
}

/// A cell of the map as the interface shows it.
#[derive(Clone, Copy, Debug, Default, PartialEq, Eq, Structural)]
pub struct Tile {
    pub coord: HexCoord,
    pub is_obstructed: bool,
    pub is_hovered: bool,
    pub is_clicked: bool,
    pub can_be_clicked: bool,
}

impl Tile {
    pub fn new(q: i32, r: i32, is_obstructed: bool) -> (t: Tile)
        ensures
            t == (Tile {
                coord: HexCoord { q, r },
                is_obstructed,
                is_hovered: false,
                is_clicked: false,
                can_be_clicked: false,
            }),
    {
        Tile {
            coord: HexCoord::new(q, r),
            is_obstructed,
            is_hovered: false,
            is_clicked: false,
            can_be_clicked: false,
        }
    }
}

/// The coordinates of the obstructed tiles, in tile order.
pub open spec fn obstructed_cells(tiles: Seq<Tile>) -> Seq<HexCoord> {
    tiles.filter(|t: Tile| t.is_obstructed).map_values(|t: Tile| t.coord)
}

/// Collects the coordinates of the obstructed tiles.
pub fn obstructed_coords(tiles: &Vec<Tile>) -> (cs: Vec<HexCoord>)
    ensures
        cs@ == obstructed_cells(tiles@),
{
    let ghost pred = |t: Tile| t.is_obstructed;
    let ghost f = |t: Tile| t.coord;
    let mut cs: Vec<HexCoord> = Vec::new();
    let mut i: usize = 0;
    assert(tiles@.take(0).filter(pred) =~= Seq::<Tile>::empty());
    assert(cs@ =~= tiles@.take(0).filter(pred).map_values(f));
    while i < tiles.len()
        invariant
            pred == (|t: Tile| t.is_obstructed),
            f == (|t: Tile| t.coord),
            i <= tiles@.len(),
            cs@ == tiles@.take(i as int).filter(pred).map_values(f),
        decreases tiles@.len() - i,
    {
        let t = tiles[i];
        proof {
            assert(tiles@.take(i + 1) =~= tiles@.take(i as int).push(t));
            tiles@.take(i as int).lemma_filter_push(t, pred);
        }
        if t.is_obstructed {
            cs.push(t.coord);
            assert(cs@ =~= tiles@.take(i + 1).filter(pred).map_values(f));
        } else {
            assert(cs@ =~= tiles@.take(i + 1).filter(pred).map_values(f));
        }
        i = i + 1;
    }
    assert(tiles@.take(tiles@.len() as int) =~= tiles@);
    cs
}

/// Whether `current_coord` is among the obstructed tiles.
fn check_obstructed(obstructed_tiles: &Vec<HexCoord>, current_coord: HexCoord) -> (b: bool)
    ensures
        b == obstructed_tiles@.contains(current_coord),
{
    contains_coord(obstructed_tiles, &current_coord)
}

/// The inclusive bounds of the search area, in axial column and row.
struct Bounds {
    x_lo: i64,
    x_hi: i64,
    y_lo: i64,
    y_hi: i64,
}

impl Bounds {
    spec fn contains(self, c: HexCoord) -> bool {
        self.x_lo <= axial_q(c) <= self.x_hi && self.y_lo <= c.r <= self.y_hi
    }

    spec fn width(self) -> int {
        self.x_hi - self.x_lo + 1
    }

    spec fn height(self) -> int {
        self.y_hi - self.y_lo + 1
    }

    /// Position of a cell of the area in row-major order.
    spec fn index_of(self, c: HexCoord) -> int {
        (c.r - self.y_lo) * self.width() + (axial_q(c) - self.x_lo)
    }

    spec fn matches(self, cells: Seq<HexCoord>) -> bool {
        &&& self.x_lo <= self.x_hi
        &&& self.y_lo <= self.y_hi
        &&& forall|c: HexCoord| self.contains(c) <==> in_search_area(c, cells)
        &&& forall|c: HexCoord| self.contains(c) ==> c.is_interior()
    }

    fn has(&self, c: &HexCoord) -> (b: bool)
        ensures
            b == self.contains(*c),
    {
        let x = offset2axial(c);
        self.x_lo <= x && x <= self.x_hi && self.y_lo <= c.r as i64 && c.r as i64 <= self.y_hi
    }
}

proof fn lemma_index_in_range(b: Bounds, c: HexCoord)
    requires
        b.x_lo <= b.x_hi,
        b.y_lo <= b.y_hi,
        b.contains(c),
    ensures
        0 <= b.index_of(c) < b.width() * b.height(),
{
    let w = b.width();
    let y = c.r - b.y_lo;
    let x = axial_q(c) - b.x_lo;
    let h = b.height();
    assert(0 <= y * w + x < w * h) by (nonlinear_arith)
        requires
            0 <= x < w,
            0 <= y < h,
    ;
}

proof fn lemma_index_injective(b: Bounds, c: HexCoord, d: HexCoord)
    requires
        b.x_lo <= b.x_hi,
        b.contains(c),
        b.contains(d),
        b.index_of(c) == b.index_of(d),
    ensures
        c == d,
{
    let w = b.width();
    let y1 = c.r - b.y_lo;
    let x1 = axial_q(c) - b.x_lo;
    let y2 = d.r - b.y_lo;
    let x2 = axial_q(d) - b.x_lo;
    assert(y1 == y2 && x1 == x2) by (nonlinear_arith)
        requires
            0 <= x1 < w,
            0 <= x2 < w,
            0 <= y1,
            0 <= y2,
            y1 * w + x1 == y2 * w + x2,
    {
        if y1 < y2 {
            assert(y1 * w + w <= y2 * w);
        } else if y2 < y1 {
            assert(y2 * w + w <= y1 * w);
        }
    }
}

/// Computes the search area for the given start, goal and obstructed cells.
fn search_bounds(start: HexCoord, goal: HexCoord, obstructed_tiles: &Vec<HexCoord>) -> (b: Bounds)
    requires
        forall|i: int| 0 <= i < anchor_cells(start, goal, obstructed_tiles@).len()
            ==> far_from_edge(#[trigger] anchor_cells(start, goal, obstructed_tiles@)[i]),
    ensures
        b.matches(anchor_cells(start, goal, obstructed_tiles@)),
{
    let ghost cells = anchor_cells(start, goal, obstructed_tiles@);
    assert(cells[0] == start && cells[1] == goal);
    let sx = offset2axial(&start);
    let gx = offset2axial(&goal);
    let mut x_min = if sx <= gx { sx } else { gx };
    let mut x_max = if sx >= gx { sx } else { gx };
    let mut r_min = if start.r <= goal.r { start.r } else { goal.r };
    let mut r_max = if start.r >= goal.r { start.r } else { goal.r };
    let ghost mut wx_min: int = if sx <= gx { 0 } else { 1 };
    let ghost mut wx_max: int = if sx >= gx { 0 } else { 1 };
    let ghost mut wr_min: int = if start.r <= goal.r { 0 } else { 1 };
    let ghost mut wr_max: int = if start.r >= goal.r { 0 } else { 1 };
    let mut i: usize = 0;
    while i < obstructed_tiles.len()
        invariant
            cells == anchor_cells(start, goal, obstructed_tiles@),
            forall|j: int| 0 <= j < cells.len() ==> far_from_edge(#[trigger] cells[j]),
            i <= obstructed_tiles.len(),
            0 <= wx_min < i + 2 && axial_q(cells[wx_min]) == x_min,
            0 <= wx_max < i + 2 && axial_q(cells[wx_max]) == x_max,
            0 <= wr_min < i + 2 && cells[wr_min].r == r_min,
            0 <= wr_max < i + 2 && cells[wr_max].r == r_max,
            forall|j: int| 0 <= j < i + 2 ==> x_min <= axial_q(#[trigger] cells[j]) <= x_max,
            forall|j: int| 0 <= j < i + 2 ==> r_min <= #[trigger] cells[j].r <= r_max,
        decreases obstructed_tiles.len() - i,
    {
        let c = obstructed_tiles[i];
        assert(cells[i + 2] == c);
        let x = offset2axial(&c);
        if x < x_min {
            x_min = x;
            proof { wx_min = i + 2; }
        }
        if x > x_max {
            x_max = x;
            proof { wx_max = i + 2; }
        }
        if c.r < r_min {
            r_min = c.r;
            proof { wr_min = i + 2; }
        }
        if c.r > r_max {
            r_max = c.r;
            proof { wr_max = i + 2; }
        }
        i = i + 1;
    }
    assert(far_from_edge(cells[wx_min]) && far_from_edge(cells[wx_max]));
    assert(far_from_edge(cells[wr_min]) && far_from_edge(cells[wr_max]));
    let b = Bounds { x_lo: x_min - 1, x_hi: x_max + 1, y_lo: r_min as i64 - 1, y_hi: r_max as i64 + 1 };
    assert forall|c: HexCoord| b.contains(c) <==> in_search_area(c, cells) by {
        if b.contains(c) {
            assert(axial_q(cells[wx_min]) <= axial_q(c) + 1);
            assert(axial_q(c) <= axial_q(cells[wx_max]) + 1);
            assert(cells[wr_min].r <= c.r + 1);
            assert(c.r <= cells[wr_max].r + 1);
        }
        if in_search_area(c, cells) {
            let i1 = choose|i: int| 0 <= i < cells.len() && axial_q(#[trigger] cells[i]) <= axial_q(c) + 1;
            let i2 = choose|i: int| 0 <= i < cells.len() && axial_q(c) <= axial_q(#[trigger] cells[i]) + 1;
            let i3 = choose|i: int| 0 <= i < cells.len() && #[trigger] cells[i].r <= c.r + 1;
            let i4 = choose|i: int| 0 <= i < cells.len() && c.r <= #[trigger] cells[i].r + 1;
            assert(x_min <= axial_q(cells[i1]));
            assert(axial_q(cells[i2]) <= x_max);
            assert(r_min <= cells[i3].r);
            assert(cells[i4].r <= r_max);
        }
    }
    b
}

/// The discovered cells form a tree rooted at the start: each other cell
/// records the closed cell it was reached from, one step and one unit of cost
/// further.
spec fn tree_ok(
    nodes: Seq<HexCoord>,
    g: Seq<usize>,
    parent: Seq<usize>,
    closed: Seq<bool>,
    start: HexCoord,
    goal: HexCoord,
    obstructed: Seq<HexCoord>,
) -> bool {
    let n = nodes.len();
    &&& g.len() == n && parent.len() == n && closed.len() == n
    &&& n >= 1 && nodes[0] == start && g[0] == 0
    &&& forall|i: int| 0 <= i < n ==> #[trigger] g[i] < n
    &&& forall|i: int|
        0 < i < n ==> {
            &&& (#[trigger] parent[i]) < n
            &&& closed[parent[i] as int]
            &&& g[i] == g[parent[i] as int] + 1
            &&& is_step(nodes[parent[i] as int], nodes[i], start, goal, obstructed)
        }
}

/// A number that tells cells apart: column and row, each shifted to be
/// nonnegative, side by side in one `u64`.
spec fn cell_key(c: HexCoord) -> u64 {
    ((c.q + 0x8000_0000) * 0x1_0000_0000 + (c.r + 0x8000_0000)) as u64
}

fn cell_key_exec(c: &HexCoord) -> (k: u64)
    ensures
        k == cell_key(*c),
{
    let q = (c.q as i64 + 0x8000_0000) as u64;
    let r = (c.r as i64 + 0x8000_0000) as u64;
    q * 0x1_0000_0000 + r
}

proof fn lemma_cell_key_injective(c: HexCoord, d: HexCoord)
    requires
        cell_key(c) == cell_key(d),
    ensures
        c == d,
{
    let a1 = c.q + 0x8000_0000;
    let b1 = c.r + 0x8000_0000;
    let a2 = d.q + 0x8000_0000;
    let b2 = d.r + 0x8000_0000;
    assert(0 <= a1 * 0x1_0000_0000 + b1 <= u64::MAX) by (nonlinear_arith)
        requires
            0 <= a1 < 0x1_0000_0000,
            0 <= b1 < 0x1_0000_0000,
    ;
    assert(0 <= a2 * 0x1_0000_0000 + b2 <= u64::MAX) by (nonlinear_arith)
        requires
            0 <= a2 < 0x1_0000_0000,
            0 <= b2 < 0x1_0000_0000,
    ;
    assert(a1 == a2 && b1 == b2) by (nonlinear_arith)
        requires
            0 <= b1 < 0x1_0000_0000,
            0 <= b2 < 0x1_0000_0000,
            a1 * 0x1_0000_0000 + b1 == a2 * 0x1_0000_0000 + b2,
    {
        if a1 < a2 {
            assert(a1 * 0x1_0000_0000 + 0x1_0000_0000 <= a2 * 0x1_0000_0000);
        } else if a2 < a1 {
            assert(a2 * 0x1_0000_0000 + 0x1_0000_0000 <= a1 * 0x1_0000_0000);
        }
    }
}

/// The map from cell keys to positions in `nodes` is exact.
#[verifier::opaque]
spec fn index_ok(index: Map<u64, usize>, nodes: Seq<HexCoord>) -> bool {
    &&& forall|i: int| 0 <= i < nodes.len() ==> index.contains_key(cell_key(#[trigger] nodes[i]))
    &&& forall|k: u64|
        #[trigger] index.contains_key(k) ==> index[k] < nodes.len() && cell_key(nodes[index[k] as int]) == k
}

proof fn lemma_index_ok_push(index: Map<u64, usize>, nodes: Seq<HexCoord>, c: HexCoord)
    requires
        index_ok(index, nodes),
        nodes.len() <= usize::MAX,
    ensures
        index_ok(index.insert(cell_key(c), nodes.len() as usize), nodes.push(c)),
{
    reveal(index_ok);
    let index2 = index.insert(cell_key(c), nodes.len() as usize);
    let nodes2 = nodes.push(c);
    assert forall|i: int| 0 <= i < nodes2.len() implies index2.contains_key(cell_key(#[trigger] nodes2[i])) by {
        if i < nodes.len() {
            assert(nodes2[i] == nodes[i]);
        }
    }
    assert forall|k: u64| #[trigger] index2.contains_key(k) implies index2[k] < nodes2.len() && cell_key(nodes2[index2[k] as int]) == k by {
        if k != cell_key(c) {
            assert(index.contains_key(k));
            assert(nodes2[index[k] as int] == nodes[index[k] as int]);
        }
    }
}

proof fn lemma_index_ok_empty()
    ensures
        index_ok(Map::<u64, usize>::empty(), Seq::<HexCoord>::empty()),
{
    reveal(index_ok);
}

/// Records that `c` sits at position `i`.
fn remember_cell(index: &mut HashMap<u64, usize>, c: &HexCoord, i: usize)
    ensures
        final(index)@ == old(index)@.insert(cell_key(*c), i),
{
    broadcast use vstd::std_specs::hash::group_hash_axioms;

    index.insert(cell_key_exec(c), i);
}

/// Position of `c` among the discovered cells, if it is one.
fn find_index(index: &HashMap<u64, usize>, nodes: &Vec<HexCoord>, c: &HexCoord) -> (r: Option<usize>)
    requires
        index_ok(index@, nodes@),
    ensures
        match r {
            Some(i) => i < nodes@.len() && nodes@[i as int] == *c,
            None => !nodes@.contains(*c),
        },
{
    broadcast use vstd::std_specs::hash::group_hash_axioms;

    reveal(index_ok);
    let key = cell_key_exec(c);
    match index.get(&key) {
        Some(i) => {
            proof {
                lemma_cell_key_injective(nodes@[*i as int], *c);
            }
            Some(*i)
        },
        None => {
            proof {
                if nodes@.contains(*c) {
                    let j = choose|j: int| 0 <= j < nodes@.len() && nodes@[j] == *c;
                    assert(index@.contains_key(cell_key(nodes@[j])));
                }
            }
            None
        },
    }
}

/// Backtraces the path from the cell at `at` to the start through the
/// recorded back-pointers.
fn reconstruct_path(
    nodes: &Vec<HexCoord>,
    g: &Vec<usize>,
    parent: &Vec<usize>,
    Ghost(closed): Ghost<Seq<bool>>,
    at: usize,
    Ghost(start): Ghost<HexCoord>,
    Ghost(goal): Ghost<HexCoord>,
    Ghost(obstructed): Ghost<Seq<HexCoord>>,
) -> (path: Vec<HexCoord>)
    requires
        tree_ok(nodes@, g@, parent@, closed, start, goal, obstructed),
        at < nodes@.len(),
    ensures
        is_walk(path@, start, goal, obstructed),
        path@[0] == start,
        path@[path@.len() - 1] == nodes@[at as int],
        path@.len() == g@[at as int] + 1,
{
    let mut back: Vec<HexCoord> = Vec::new();
    back.push(nodes[at]);
    let mut cur = at;
    while cur != 0
        invariant
            tree_ok(nodes@, g@, parent@, closed, start, goal, obstructed),
            cur < nodes@.len(),
            at < nodes@.len(),
            back@.len() >= 1,
            back@[0] == nodes@[at as int],
            back@[back@.len() - 1] == nodes@[cur as int],
            back@.len() + g@[cur as int] == g@[at as int] + 1,
            forall|m: int| 0 <= m < back@.len() - 1 ==> is_step(back@[m + 1], #[trigger] back@[m], start, goal, obstructed),
        decreases g@[cur as int],
    {
        let p = parent[cur];
        back.push(nodes[p]);
        cur = p;
    }
    let mut path: Vec<HexCoord> = Vec::new();
    let mut k = back.len();
    while k > 0
        invariant
            k <= back@.len(),
            path@.len() + k == back@.len(),
            forall|m: int| 0 <= m < path@.len() ==> #[trigger] path@[m] == back@[back@.len() - 1 - m],
        decreases k,
    {
        k = k - 1;
        path.push(back[k]);
    }
    assert forall|i: int| 0 <= i < path@.len() - 1 implies is_step(#[trigger] path@[i], path@[i + 1], start, goal, obstructed) by {
        let m = back@.len() - 2 - i;
        assert(path@[i] == back@[m + 1]);
        assert(path@[i + 1] == back@[m]);
    }
    path
}

/// Some entry of the open list refers to the cell at index `i` with score `f`.
spec fn in_open_with(open: Multiset<(u128, usize)>, i: int, f: int) -> bool {
    exists|e: (u128, usize)| #[trigger] open.count(e) > 0 && e.1 == i && e.0 == f
}

proof fn lemma_remove_keeps_others(open: Multiset<(u128, usize)>, x: (u128, usize), i: int, f: int)
    requires
        in_open_with(open, i, f),
        x.1 != i,
    ensures
        in_open_with(open.remove(x), i, f),
{
    let e = choose|e: (u128, usize)| #[trigger] open.count(e) > 0 && e.1 == i && e.0 == f;
    assert(open.remove(x).count(e) == open.count(e));
}

proof fn lemma_push_keeps(open: Multiset<(u128, usize)>, x: (u128, usize), i: int, f: int)
    requires
        in_open_with(open, i, f),
    ensures
        in_open_with(open.insert(x), i, f),
{
    let e = choose|e: (u128, usize)| #[trigger] open.count(e) > 0 && e.1 == i && e.0 == f;
    assert(open.insert(x).count(e) >= open.count(e));
}

/// The neighbour a search steps to from `c` when heading for `goal`.
spec fn toward(c: HexCoord, goal: HexCoord) -> HexCoord {
    neighbor_at(c, toward_index(c, goal))
}

/// `c` has been discovered with a cost that leaves `d` as the total estimate.
spec fn known_within(nodes: Seq<HexCoord>, g: Seq<usize>, c: HexCoord, goal: HexCoord, d: int) -> bool {
    exists|j: int| 0 <= j < nodes.len() && nodes[j] == c && g[j] + hex_dist(c, goal) <= d
}

/// Every closed cell but `skip` lies on a shortest route, and so does its
/// step toward the goal, which has been discovered.
spec fn on_route(nodes: Seq<HexCoord>, g: Seq<usize>, closed: Seq<bool>, start: HexCoord, goal: HexCoord, skip: int) -> bool {
    forall|i: int|
        0 <= i < nodes.len() && #[trigger] closed[i] && i != skip ==> {
            &&& g[i] + hex_dist(nodes[i], goal) <= hex_dist(start, goal)
            &&& known_within(nodes, g, toward(nodes[i], goal), goal, hex_dist(start, goal))
        }
}

/// The second search state keeps every cell of the first at the same place,
/// with a cost no higher, the same closed flag and, once closed, the same cost.
spec fn extends(
    nodes: Seq<HexCoord>,
    g: Seq<usize>,
    closed: Seq<bool>,
    nodes2: Seq<HexCoord>,
    g2: Seq<usize>,
    closed2: Seq<bool>,
) -> bool {
    &&& nodes.len() <= nodes2.len()
    &&& forall|j: int|
        0 <= j < nodes.len() ==> {
            &&& #[trigger] nodes2[j] == nodes[j]
            &&& g2[j] <= g[j]
            &&& closed2[j] == closed[j]
            &&& closed[j] ==> g2[j] == g[j]
        }
    &&& forall|j: int| nodes.len() <= j < nodes2.len() ==> !#[trigger] closed2[j]
}

proof fn lemma_known_within_extends(
    nodes: Seq<HexCoord>,
    g: Seq<usize>,
    closed: Seq<bool>,
    nodes2: Seq<HexCoord>,
    g2: Seq<usize>,
    closed2: Seq<bool>,
    c: HexCoord,
    goal: HexCoord,
    d: int,
)
    requires
        extends(nodes, g, closed, nodes2, g2, closed2),
        known_within(nodes, g, c, goal, d),
    ensures
        known_within(nodes2, g2, c, goal, d),
{
    let j = choose|j: int| 0 <= j < nodes.len() && nodes[j] == c && g[j] + hex_dist(c, goal) <= d;
    assert(nodes2[j] == nodes[j]);
}

proof fn lemma_on_route_extends(
    nodes: Seq<HexCoord>,
    g: Seq<usize>,
    closed: Seq<bool>,
    nodes2: Seq<HexCoord>,
    g2: Seq<usize>,
    closed2: Seq<bool>,
    start: HexCoord,
    goal: HexCoord,
    skip: int,
)
    requires
        extends(nodes, g, closed, nodes2, g2, closed2),
        on_route(nodes, g, closed, start, goal, skip),
        closed.len() == nodes.len(),
        closed2.len() == nodes2.len(),
    ensures
        on_route(nodes2, g2, closed2, start, goal, skip),
{
    assert forall|i: int| 0 <= i < nodes2.len() && #[trigger] closed2[i] && i != skip implies {
        &&& g2[i] + hex_dist(nodes2[i], goal) <= hex_dist(start, goal)
        &&& known_within(nodes2, g2, toward(nodes2[i], goal), goal, hex_dist(start, goal))
    } by {
        assert(i < nodes.len());
        assert(nodes2[i] == nodes[i]);
        assert(closed[i]);
        lemma_known_within_extends(nodes, g, closed, nodes2, g2, closed2, toward(nodes[i], goal), goal, hex_dist(start, goal));
    }
}

/// While the goal is not closed, some cell on a shortest route is still open.
proof fn lemma_route_stays_open(
    nodes: Seq<HexCoord>,
    g: Seq<usize>,
    closed: Seq<bool>,
    start: HexCoord,
    goal: HexCoord,
    i0: int,
)
    requires
        g.len() == nodes.len(),
        closed.len() == nodes.len(),
        0 <= i0 < nodes.len(),
        g[i0] + hex_dist(nodes[i0], goal) <= hex_dist(start, goal),
        on_route(nodes, g, closed, start, goal, -1),
        forall|i: int| 0 <= i < nodes.len() && #[trigger] closed[i] ==> nodes[i] != goal,
        forall|i: int| 0 <= i < nodes.len() ==> (#[trigger] nodes[i]).is_interior(),
    ensures
        exists|i: int| 0 <= i < nodes.len() && !closed[i] && g[i] + hex_dist(nodes[i], goal) <= hex_dist(start, goal),
    decreases hex_dist(nodes[i0], goal),
{
    if closed[i0] {
        let c = nodes[i0];
        let j = choose|j: int| 0 <= j < nodes.len() && nodes[j] == toward(c, goal) && g[j] + hex_dist(toward(c, goal), goal) <= hex_dist(start, goal);
        assert(c.is_interior());
        lemma_toward_goal(c, goal);
        lemma_route_stays_open(nodes, g, closed, start, goal, j);
    }
}

/// The cell `c` is obstructed, or each of its first `upto` neighbours that
/// lies in the search area has been discovered.
spec fn expanded(nodes: Seq<HexCoord>, b: Bounds, obstructed: Seq<HexCoord>, c: HexCoord, upto: int) -> bool {
    obstructed.contains(c) || forall|k: int|
        0 <= k < upto && b.contains(#[trigger] neighbor_at(c, k)) ==> nodes.contains(neighbor_at(c, k))
}

proof fn lemma_known_along_walk(
    nodes: Seq<HexCoord>,
    closed: Seq<bool>,
    b: Bounds,
    start: HexCoord,
    goal: HexCoord,
    obstructed: Seq<HexCoord>,
    p: Seq<HexCoord>,
    t: int,
)
    requires
        b.matches(anchor_cells(start, goal, obstructed)),
        closed.len() == nodes.len(),
        forall|i: int| 0 <= i < nodes.len() ==> #[trigger] closed[i],
        forall|i: int| 0 <= i < nodes.len() ==> b.contains(#[trigger] nodes[i]),
        forall|i: int|
            0 <= i < nodes.len() ==> expanded(nodes, b, obstructed, #[trigger] nodes[i], 6),
        nodes.contains(start),
        is_walk(p, start, goal, obstructed),
        p[0] == start,
        0 <= t < p.len(),
    ensures
        nodes.contains(p[t]),
    decreases t,
{
    if t > 0 {
        lemma_known_along_walk(nodes, closed, b, start, goal, obstructed, p, t - 1);
        let a = p[t - 1];
        let c = p[t];
        assert(is_step(p[t - 1], p[t], start, goal, obstructed));
        let i = choose|i: int| 0 <= i < nodes.len() && nodes[i] == a;
        assert(expanded(nodes, b, obstructed, nodes[i], 6));
        assert(b.contains(a));
        assert(b.contains(c));
        let k: int = if is_kth_neighbor(a, c, 0) { 0 } else if is_kth_neighbor(a, c, 1) { 1 } else if is_kth_neighbor(a, c, 2) { 2 } else if is_kth_neighbor(a, c, 3) { 3 } else if is_kth_neighbor(a, c, 4) { 4 } else { 5 };
        assert(neighbor_at(a, k) == c);
    }
}

/// When every discovered cell is closed and expanded, and none is the goal,
/// no walk reaches the goal.
proof fn lemma_exhausted_unreachable(
    nodes: Seq<HexCoord>,
    closed: Seq<bool>,
    b: Bounds,
    start: HexCoord,
    goal: HexCoord,
    obstructed: Seq<HexCoord>,
)
    requires
        b.matches(anchor_cells(start, goal, obstructed)),
        closed.len() == nodes.len(),
        nodes.len() >= 1,
        nodes[0] == start,
        forall|i: int| 0 <= i < nodes.len() ==> #[trigger] closed[i],
        forall|i: int| 0 <= i < nodes.len() ==> b.contains(#[trigger] nodes[i]),
        forall|i: int|
            0 <= i < nodes.len() ==> expanded(nodes, b, obstructed, #[trigger] nodes[i], 6),
        forall|i: int| 0 <= i < nodes.len() ==> #[trigger] nodes[i] != goal,
    ensures
        !is_reachable(start, goal, obstructed),
{
    if is_reachable(start, goal, obstructed) {
        let p = choose|p: Seq<HexCoord>|
            is_walk(p, start, goal, obstructed) && p[0] == start && p[p.len() - 1] == goal;
        assert(nodes[0] == start);
        lemma_known_along_walk(nodes, closed, b, start, goal, obstructed, p, p.len() - 1);
        let i = choose|i: int| 0 <= i < nodes.len() && nodes[i] == goal;
        assert(nodes[i] != goal);
    }
}

/// A* from `start` to `goal`, where obstructed cells may be entered but not
/// left. Returns the walk from `start` to `goal`, both included, or `None`
/// when no walk exists. With nothing obstructed the walk is a shortest one.
///
/// The open list is a binary heap ordered by `g + hex_distance(cell, goal)`;
/// a closed cell is never reopened, which the consistent heuristic on this
/// uniform-cost grid makes safe.
#[verifier::rlimit(100)]
#[verifier::spinoff_prover]
pub fn astar(start: HexCoord, goal: HexCoord, obstructed_tiles: &Vec<HexCoord>) -> (path: Option<Vec<HexCoord>>)
    requires
        forall|i: int| 0 <= i < anchor_cells(start, goal, obstructed_tiles@).len()
            ==> far_from_edge(#[trigger] anchor_cells(start, goal, obstructed_tiles@)[i]),
    ensures
        match path {
            Some(p) => {
                &&& is_walk(p@, start, goal, obstructed_tiles@)
                &&& p@[0] == start
                &&& p@[p@.len() - 1] == goal
                &&& obstructed_tiles@.len() == 0 ==> p@.len() == hex_dist(start, goal) + 1
            },
            None => !is_reachable(start, goal, obstructed_tiles@),
        },
{
    let ghost obs = obstructed_tiles@;
    let ghost cells = anchor_cells(start, goal, obs);
    let ghost dd = hex_dist(start, goal);
    let bounds = search_bounds(start, goal, obstructed_tiles);
    let ghost area: int = bounds.width() * bounds.height();
    assert(cells[0] == start && cells[1] == goal);
    assert(in_search_area(start, cells)) by {
        assert(axial_q(cells[0]) <= axial_q(start) + 1 && cells[0].r <= start.r + 1);
    }
    let mut nodes: Vec<HexCoord> = Vec::new();
    let mut g: Vec<usize> = Vec::new();
    let mut parent: Vec<usize> = Vec::new();
    let mut closed: Vec<bool> = Vec::new();
    let mut open = Frontier::new();
    let mut index: HashMap<u64, usize> = HashMap::new();
    proof {
        lemma_index_ok_empty();
        lemma_index_ok_push(index@, nodes@, start);
    }
    remember_cell(&mut index, &start, 0);
    nodes.push(start);
    g.push(0);
    parent.push(0);
    closed.push(false);
    let h0 = hex_distance_wide(&start, &goal);
    open.push((h0 as u128, 0));
    let ghost mut closed_set: Set<int> = Set::empty();
    proof {
        let e0 = (h0 as u128, 0usize);
        assert(open@.count(e0) > 0);
        assert forall|e: (u128, usize)| #[trigger] open@.count(e) > 0 implies e == e0 by {}
    }
    while open.len() > 0
        invariant
            obs == obstructed_tiles@,
            cells == anchor_cells(start, goal, obs),
            dd == hex_dist(start, goal),
            bounds.matches(cells),
            area == bounds.width() * bounds.height(),
            tree_ok(nodes@, g@, parent@, closed@, start, goal, obs),
            index_ok(index@, nodes@),
            forall|i: int| 0 <= i < nodes@.len() ==> bounds.contains(#[trigger] nodes@[i]),
            forall|i: int, j: int| 0 <= i < j < nodes@.len() ==> nodes@[i] != nodes@[j],
            open.wf(),
            forall|e: (u128, usize)| #[trigger] open@.count(e) > 0 ==> {
                &&& e.1 < nodes@.len()
                &&& e.0 >= g@[e.1 as int] + hex_dist(nodes@[e.1 as int], goal)
            },
            forall|i: int| 0 <= i < nodes@.len() ==> #[trigger] closed@[i] || in_open_with(open@, i, g@[i] + hex_dist(nodes@[i], goal)),
            forall|i: int| 0 <= i < nodes@.len() ==> #[trigger] g@[i] >= hex_dist(start, nodes@[i]),
            obs.len() == 0 ==> on_route(nodes@, g@, closed@, start, goal, -1),
            forall|i: int|
                0 <= i < nodes@.len() && #[trigger] closed@[i] ==> nodes@[i] != goal && expanded(
                    nodes@,
                    bounds,
                    obs,
                    nodes@[i],
                    6,
                ),
            closed_set.finite(),
            closed_set.subset_of(set_int_range(0, area)),
            forall|i: int| 0 <= i < nodes@.len() && #[trigger] closed@[i] ==> closed_set.contains(bounds.index_of(nodes@[i])),
            forall|x: int| #[trigger] closed_set.contains(x) ==> exists|i: int|
                0 <= i < nodes@.len() && closed@[i] && bounds.index_of(#[trigger] nodes@[i]) == x,
        decreases area - closed_set.len(), open@.len(),
    {
        proof {
            lemma_int_range(0, area);
            lemma_len_subset(closed_set, set_int_range(0, area));
        }
        let ghost old_open = open@;
        proof {
            if obs.len() == 0 {
                assert forall|i: int| 0 <= i < nodes@.len() implies (#[trigger] nodes@[i]).is_interior() by {
                    assert(bounds.contains(nodes@[i]));
                }
                lemma_route_stays_open(nodes@, g@, closed@, start, goal, 0);
            }
        }
        let entry = open.pop_min();
        let ci = entry.1;
        proof {
            if obs.len() == 0 {
                let y = choose|y: int| 0 <= y < nodes@.len() && !closed@[y] && g@[y] + hex_dist(nodes@[y], goal) <= dd;
                assert(in_open_with(old_open, y, g@[y] + hex_dist(nodes@[y], goal)));
                let w = choose|w: (u128, usize)| #[trigger] old_open.count(w) > 0 && w.1 == y && w.0 == g@[y] + hex_dist(nodes@[y], goal);
                assert(entry.0 <= w.0);
            }
            assert forall|i: int| 0 <= i < nodes@.len() && i != ci implies #[trigger] closed@[i] || in_open_with(open@, i, g@[i] + hex_dist(nodes@[i], goal)) by {
                if !closed@[i] {
                    lemma_remove_keeps_others(old_open, entry, i, g@[i] + hex_dist(nodes@[i], goal));
                }
            }
            assert forall|e: (u128, usize)| #[trigger] open@.count(e) > 0 implies {
                &&& e.1 < nodes@.len()
                &&& e.0 >= g@[e.1 as int] + hex_dist(nodes@[e.1 as int], goal)
            } by {
                assert(old_open.count(e) > 0);
            }
            lemma_hex_distance_triangle(start, nodes@[ci as int], goal);
        }
        if nodes[ci] == goal {
            let p = reconstruct_path(&nodes, &g, &parent, Ghost(closed@), ci, Ghost(start), Ghost(goal), Ghost(obs));
            proof {
                lemma_walk_at_least_distance(p@, start, goal, obs);
            }
            return Some(p);
        }
        if !closed[ci] {
            let current = nodes[ci];
            let ghost x = bounds.index_of(current);
            proof {
                if closed_set.contains(x) {
                    let i = choose|i: int| 0 <= i < nodes@.len() && closed@[i] && bounds.index_of(#[trigger] nodes@[i]) == x;
                    lemma_index_injective(bounds, nodes@[i], current);
                }
                lemma_index_in_range(bounds, current);
            }
            closed.set(ci, true);
            proof {
                closed_set = closed_set.insert(x);
                lemma_len_subset(closed_set, set_int_range(0, area));
                assert forall|i: int| 0 <= i < nodes@.len() && #[trigger] closed@[i] && i != ci implies {
                    &&& obs.len() == 0 ==> g@[i] + hex_dist(nodes@[i], goal) <= dd
                    &&& obs.len() == 0 ==> known_within(nodes@, g@, toward(nodes@[i], goal), goal, dd)
                } by {}
            }
            assert(current.is_interior());
            if !check_obstructed(obstructed_tiles, current) {
                let nbs = get_neighbors(&current);
                let gc = g[ci];
                let mut j: usize = 0;
                while j < 6
                    invariant
                        obs == obstructed_tiles@,
                        cells == anchor_cells(start, goal, obs),
                        dd == hex_dist(start, goal),
                        bounds.matches(cells),
                        area == bounds.width() * bounds.height(),
                        tree_ok(nodes@, g@, parent@, closed@, start, goal, obs),
                        index_ok(index@, nodes@),
                        forall|i: int| 0 <= i < nodes@.len() ==> bounds.contains(#[trigger] nodes@[i]),
                        forall|i: int, j: int| 0 <= i < j < nodes@.len() ==> nodes@[i] != nodes@[j],
                        open.wf(),
                        forall|e: (u128, usize)| #[trigger] open@.count(e) > 0 ==> {
                            &&& e.1 < nodes@.len()
                            &&& e.0 >= g@[e.1 as int] + hex_dist(nodes@[e.1 as int], goal)
                        },
                        forall|i: int| 0 <= i < nodes@.len() ==> #[trigger] closed@[i] || in_open_with(open@, i, g@[i] + hex_dist(nodes@[i], goal)),
                        forall|i: int| 0 <= i < nodes@.len() ==> #[trigger] g@[i] >= hex_dist(start, nodes@[i]),
                        obs.len() == 0 ==> on_route(nodes@, g@, closed@, start, goal, ci as int),
                        forall|i: int|
                            0 <= i < nodes@.len() && #[trigger] closed@[i] && i != ci ==> nodes@[i] != goal
                                && expanded(nodes@, bounds, obs, nodes@[i], 6),
                        closed_set.finite(),
                        closed_set.subset_of(set_int_range(0, area)),
                        forall|i: int| 0 <= i < nodes@.len() && #[trigger] closed@[i] ==> closed_set.contains(bounds.index_of(nodes@[i])),
                        forall|x: int| #[trigger] closed_set.contains(x) ==> exists|i: int|
                            0 <= i < nodes@.len() && closed@[i] && bounds.index_of(#[trigger] nodes@[i]) == x,
                        ci < nodes@.len(),
                        closed@[ci as int],
                        nodes@[ci as int] == current,
                        current != goal,
                        current.is_interior(),
                        bounds.contains(current),
                        !obs.contains(current),
                        g@[ci as int] == gc,
                        obs.len() == 0 ==> gc + hex_dist(current, goal) <= dd,
                        j <= 6,
                        nbs@.len() == 6,
                        forall|k: int| 0 <= k < 6 ==> #[trigger] nbs@[k] == neighbor_at(current, k),
                        expanded(nodes@, bounds, obs, current, j as int),
                        obs.len() == 0 ==> forall|k: int|
                            0 <= k < j && bounds.contains(#[trigger] neighbor_at(current, k))
                                && hex_dist(neighbor_at(current, k), goal) < hex_dist(current, goal)
                                ==> known_within(nodes@, g@, neighbor_at(current, k), goal, dd),
                    decreases 6 - j,
                {
                    let nb = nbs[j];
                    let n_known = nodes.len();
                    assert(nb == neighbor_at(current, j as int));
                    assert(is_kth_neighbor(current, nb, j as int));
                    let ghost old_nodes = nodes@;
                    let ghost old_g = g@;
                    let ghost old_closed = closed@;
                    let ghost old_open2 = open@;
                    proof {
                        lemma_neighbor_at_distance_one(current, nb);
                        lemma_hex_distance_triangle(start, current, nb);
                        lemma_hex_distance_triangle(nb, current, goal);
                        lemma_hex_distance_triangle(current, nb, goal);
                    }
                    if bounds.has(&nb) {
                        let tentative = gc + 1;
                        assert(is_step(current, nb, start, goal, obs));
                        match find_index(&index, &nodes, &nb) {
                            None => {
                                let h = hex_distance_wide(&nb, &goal);
                                proof {
                                    lemma_index_ok_push(index@, nodes@, nb);
                                }
                                remember_cell(&mut index, &nb, nodes.len());
                                nodes.push(nb);
                                g.push(tentative);
                                parent.push(ci);
                                closed.push(false);
                                let ni = nodes.len() - 1;
                                let e: (u128, usize) = (tentative as u128 + h as u128, ni);
                                open.push(e);
                                proof {
                                    assert(open@.count(e) > 0);
                                    assert(nodes@[ni as int] == nb && g@[ni as int] == tentative);
                                    assert forall|i: int| 0 <= i < nodes@.len() implies #[trigger] closed@[i] || in_open_with(open@, i, g@[i] + hex_dist(nodes@[i], goal)) by {
                                        if i < ni && !closed@[i] {
                                            assert(old_closed[i] == closed@[i]);
                                            assert(old_nodes[i] == nodes@[i] && old_g[i] == g@[i]);
                                            lemma_push_keeps(old_open2, e, i, g@[i] + hex_dist(nodes@[i], goal));
                                        }
                                    }
                                    assert forall|x: (u128, usize)| #[trigger] open@.count(x) > 0 implies {
                                        &&& x.1 < nodes@.len()
                                        &&& x.0 >= g@[x.1 as int] + hex_dist(nodes@[x.1 as int], goal)
                                    } by {
                                        if x != e {
                                            assert(old_open2.count(x) > 0);
                                            let t = x.1 as int;
                                            assert(old_g[t] == g@[t] && old_nodes[t] == nodes@[t]);
                                        }
                                    }
                                    assert forall|i: int| 0 <= i < nodes@.len() implies #[trigger] g@[i] >= hex_dist(start, nodes@[i]) by {
                                        if i < ni {
                                            assert(old_g[i] == g@[i] && old_nodes[i] == nodes@[i]);
                                        }
                                    }
                                    assert(extends(old_nodes, old_g, old_closed, nodes@, g@, closed@));
                                    if obs.len() == 0 {
                                        lemma_on_route_extends(old_nodes, old_g, old_closed, nodes@, g@, closed@, start, goal, ci as int);
                                        assert forall|k: int|
                                            0 <= k < j + 1 && bounds.contains(#[trigger] neighbor_at(current, k))
                                                && hex_dist(neighbor_at(current, k), goal) < hex_dist(current, goal)
                                                implies known_within(nodes@, g@, neighbor_at(current, k), goal, dd) by {
                                            if k < j {
                                                lemma_known_within_extends(old_nodes, old_g, old_closed, nodes@, g@, closed@, neighbor_at(current, k), goal, dd);
                                            } else {
                                                assert(nodes@[ni as int] == neighbor_at(current, k));
                                            }
                                        }
                                    }
                                    assert forall|i: int|
                                        0 <= i < nodes@.len() && #[trigger] closed@[i] && i != ci implies nodes@[i] != goal
                                            && expanded(nodes@, bounds, obs, nodes@[i], 6) by {
                                        assert(old_closed[i]);
                                        assert(old_nodes[i] == nodes@[i]);
                                        assert forall|k: int|
                                            0 <= k < 6 && bounds.contains(#[trigger] neighbor_at(nodes@[i], k)) && old_nodes.contains(neighbor_at(nodes@[i], k))
                                            implies nodes@.contains(neighbor_at(nodes@[i], k)) by {
                                            let w = choose|w: int| 0 <= w < old_nodes.len() && old_nodes[w] == neighbor_at(nodes@[i], k);
                                            assert(nodes@[w] == old_nodes[w]);
                                        }
                                    }
                                    assert forall|k: int|
                                        0 <= k < j + 1 && bounds.contains(#[trigger] neighbor_at(current, k))
                                        implies nodes@.contains(neighbor_at(current, k)) by {
                                        if k < j {
                                            let w = choose|w: int| 0 <= w < old_nodes.len() && old_nodes[w] == neighbor_at(current, k);
                                            assert(nodes@[w] == old_nodes[w]);
                                        } else {
                                            assert(nodes@[ni as int] == nb);
                                        }
                                    }
                                    assert forall|x: int| #[trigger] closed_set.contains(x) implies exists|i: int|
                                        0 <= i < nodes@.len() && closed@[i] && bounds.index_of(#[trigger] nodes@[i]) == x by {
                                        let i = choose|i: int| 0 <= i < old_nodes.len() && old_closed[i] && bounds.index_of(#[trigger] old_nodes[i]) == x;
                                        assert(nodes@[i] == old_nodes[i]);
                                    }
                                    assert(tree_ok(nodes@, g@, parent@, closed@, start, goal, obs)) by {
                                        assert forall|i: int| 0 < i < nodes@.len() implies {
                                            &&& (#[trigger] parent@[i]) < nodes@.len()
                                            &&& closed@[parent@[i] as int]
                                            &&& g@[i] == g@[parent@[i] as int] + 1
                                            &&& is_step(nodes@[parent@[i] as int], nodes@[i], start, goal, obs)
                                        } by {
                                            if i < ni {
                                                assert(old_nodes[i] == nodes@[i]);
                                            }
                                        }
                                    }
                                }
                            },
                            Some(ni) => {
                                if !closed[ni] && tentative < g[ni] {
                                    let h = hex_distance_wide(&nb, &goal);
                                    let ghost old_parent = parent@;
                                    g.set(ni, tentative);
                                    parent.set(ni, ci);
                                    let e: (u128, usize) = (tentative as u128 + h as u128, ni);
                                    open.push(e);
                                    proof {
                                        assert(open@.count(e) > 0);
                                        assert forall|i: int| 0 <= i < nodes@.len() implies #[trigger] closed@[i] || in_open_with(open@, i, g@[i] + hex_dist(nodes@[i], goal)) by {
                                            if !closed@[i] && i != ni {
                                                lemma_push_keeps(old_open2, e, i, g@[i] + hex_dist(nodes@[i], goal));
                                            }
                                        }
                                        assert forall|x: (u128, usize)| #[trigger] open@.count(x) > 0 implies {
                                            &&& x.1 < nodes@.len()
                                            &&& x.0 >= g@[x.1 as int] + hex_dist(nodes@[x.1 as int], goal)
                                        } by {
                                            if x != e {
                                                assert(old_open2.count(x) > 0);
                                            }
                                        }
                                        assert(extends(old_nodes, old_g, old_closed, nodes@, g@, closed@));
                                        if obs.len() == 0 {
                                            lemma_on_route_extends(old_nodes, old_g, old_closed, nodes@, g@, closed@, start, goal, ci as int);
                                            assert forall|k: int|
                                                0 <= k < j + 1 && bounds.contains(#[trigger] neighbor_at(current, k))
                                                    && hex_dist(neighbor_at(current, k), goal) < hex_dist(current, goal)
                                                    implies known_within(nodes@, g@, neighbor_at(current, k), goal, dd) by {
                                                if k < j {
                                                    lemma_known_within_extends(old_nodes, old_g, old_closed, nodes@, g@, closed@, neighbor_at(current, k), goal, dd);
                                                } else {
                                                    assert(nodes@[ni as int] == neighbor_at(current, k));
                                                }
                                            }
                                        }
                                        assert(tree_ok(nodes@, g@, parent@, closed@, start, goal, obs)) by {
                                            assert forall|i: int| 0 < i < nodes@.len() implies {
                                                &&& (#[trigger] parent@[i]) < nodes@.len()
                                                &&& closed@[parent@[i] as int]
                                                &&& g@[i] == g@[parent@[i] as int] + 1
                                                &&& is_step(nodes@[parent@[i] as int], nodes@[i], start, goal, obs)
                                            } by {
                                                if i != ni {
                                                    assert(old_parent[i] == parent@[i]);
                                                    assert(parent@[i] != ni);
                                                }
                                            }
                                        }
                                    }
                                } else {
                                    proof {
                                        if obs.len() == 0 {
                                            assert forall|k: int|
                                                0 <= k < j + 1 && bounds.contains(#[trigger] neighbor_at(current, k))
                                                    && hex_dist(neighbor_at(current, k), goal) < hex_dist(current, goal)
                                                    implies known_within(nodes@, g@, neighbor_at(current, k), goal, dd) by {
                                                if k == j {
                                                    if closed@[ni as int] {
                                                        assert(ni != ci);
                                                        assert(g@[ni as int] + hex_dist(nodes@[ni as int], goal) <= dd);
                                                    }
                                                    assert(nodes@[ni as int] == neighbor_at(current, k));
                                                }
                                            }
                                        }
                                    }
                                }
                                assert(nodes@[ni as int] == neighbor_at(current, j as int));
                            },
                        }
                    }
                    j = j + 1;
                }
                proof {
                    if obs.len() == 0 {
                        let k0 = toward_index(current, goal);
                        lemma_toward_goal(current, goal);
                        lemma_hex_distance_triangle(start, current, goal);
                        lemma_on_route_between(start, current, goal);
                        let t = toward(current, goal);
                        assert(between(axial_q(start), axial_q(t), axial_q(goal)));
                        assert(between(start.r as int, t.r as int, goal.r as int));
                        assert(in_search_area(t, cells)) by {
                            if axial_q(start) <= axial_q(goal) {
                                assert(axial_q(cells[0]) <= axial_q(t) + 1);
                                assert(axial_q(t) <= axial_q(cells[1]) + 1);
                            } else {
                                assert(axial_q(cells[1]) <= axial_q(t) + 1);
                                assert(axial_q(t) <= axial_q(cells[0]) + 1);
                            }
                            if start.r <= goal.r {
                                assert(cells[0].r <= t.r + 1);
                                assert(t.r <= cells[1].r + 1);
                            } else {
                                assert(cells[1].r <= t.r + 1);
                                assert(t.r <= cells[0].r + 1);
                            }
                        }
                        assert(bounds.contains(neighbor_at(current, k0)));
                        assert(known_within(nodes@, g@, t, goal, dd));
                    }
                }
            } else {
                proof {
                    assert(obs.len() > 0);
                }
            }
        }
    }
    proof {
        assert forall|i: int| 0 <= i < nodes@.len() implies #[trigger] closed@[i] by {
            if !closed@[i] {
                assert(in_open_with(open@, i, g@[i] + hex_dist(nodes@[i], goal)));
                let e = choose|e: (u128, usize)| #[trigger] open@.count(e) > 0 && e.1 == i && e.0 == g@[i] + hex_dist(nodes@[i], goal);
                assert(open@.len() > 0) by {
                    vstd::multiset::lemma_multiset_empty_len(open@);
                }
            }
        }
        assert forall|i: int| 0 <= i < nodes@.len() implies #[trigger] nodes@[i] != goal && expanded(
            nodes@,
            bounds,
            obs,
            nodes@[i],
            6,
        ) by {
            assert(closed@[i]);
        }
        lemma_exhausted_unreachable(nodes@, closed@, bounds, start, goal, obs);
    }
    None
}

} // verus!
