//! Offset hex coordinates, their axial form, distance and neighbours.
use vstd::prelude::*;

verus! {

/// A cell of an offset ("odd-r") hex grid: `q` is the column, `r` the row.
#[derive(Copy, Clone, PartialEq, Eq, Hash, Debug, Default, Structural)]
pub struct HexCoord {
    pub q: i32,
    pub r: i32,
}

impl HexCoord {
    pub fn new(q: i32, r: i32) -> (c: HexCoord)
        ensures
            c.q == q,
            c.r == r,
    {
        HexCoord { q, r }
    }

    pub fn new_from_tupple(t: (i32, i32)) -> (c: HexCoord)
        ensures
            c.q == t.0,
            c.r == t.1,
    {
        HexCoord { q: t.0, r: t.1 }
    }

    pub fn to_tupple(&self) -> (t: (i32, i32))
        ensures
            t == (self.q, self.r),
    {
        (self.q, self.r)
    }

    /// Every neighbour of the cell is representable: neither coordinate sits on
    /// the edge of the `i32` range.
    pub open spec fn is_interior(self) -> bool {
        i32::MIN < self.q < i32::MAX && i32::MIN < self.r < i32::MAX
    }
}

pub open spec fn abs(x: int) -> int {
    if x < 0 { -x } else { x }
}

pub open spec fn max3(a: int, b: int, c: int) -> int {
    if a >= b && a >= c { a } else if b >= c { b } else { c }
}

/// The axial column of an offset cell: `q - floor(r / 2)`.
pub open spec fn axial_q(c: HexCoord) -> int {
    c.q - c.r / 2
}

/// Hex distance: the largest of the three axial coordinate differences.
pub open spec fn hex_dist(a: HexCoord, b: HexCoord) -> int {
    let dq = axial_q(a) - axial_q(b);
    let dr = a.r - b.r;
    max3(abs(dq), abs(dr), abs(dq + dr))
}

/// The offset of the `k`-th neighbour; even and odd rows have their own table.
pub open spec fn neighbor_delta(even_row: bool, k: int) -> (int, int) {
    if even_row {
        if k == 0 { (1, 0) }
        else if k == 1 { (0, 1) }
        else if k == 2 { (-1, 1) }
        else if k == 3 { (-1, 0) }
        else if k == 4 { (-1, -1) }
        else { (0, -1) }
    } else {
        if k == 0 { (1, 0) }
        else if k == 1 { (1, 1) }
        else if k == 2 { (0, 1) }
        else if k == 3 { (-1, 0) }
        else if k == 4 { (0, -1) }
        else { (1, -1) }
    }
}

pub open spec fn is_even_row(c: HexCoord) -> bool {
    c.r % 2 == 0
}

/// `b` is the `k`-th neighbour of `a`.
pub open spec fn is_kth_neighbor(a: HexCoord, b: HexCoord, k: int) -> bool {
    let d = neighbor_delta(is_even_row(a), k);
    b.q == a.q + d.0 && b.r == a.r + d.1
}

/// `b` is one of the six neighbours of `a`.
pub open spec fn is_neighbor(a: HexCoord, b: HexCoord) -> bool {
    is_kth_neighbor(a, b, 0) || is_kth_neighbor(a, b, 1) || is_kth_neighbor(a, b, 2)
        || is_kth_neighbor(a, b, 3) || is_kth_neighbor(a, b, 4) || is_kth_neighbor(a, b, 5)
}

/// The `k`-th neighbour of an interior cell.
pub open spec fn neighbor_at(c: HexCoord, k: int) -> HexCoord {
    let d = neighbor_delta(is_even_row(c), k);
    HexCoord { q: (c.q + d.0) as i32, r: (c.r + d.1) as i32 }
}

/// `floor(r / 2)` for a row index.
fn floor_half(r: i64) -> (h: i64)
    requires
        i32::MIN <= r <= i32::MAX,
    ensures
        h == r / 2,
{
    if r >= 0 {
        r / 2
    } else {
        -((1 - r) / 2)
    }
}

/// The axial column of a cell.
pub(crate) fn offset2axial(a: &HexCoord) -> (q: i64)
    ensures
        q == axial_q(*a),
{
    a.q as i64 - floor_half(a.r as i64)
}

fn abs_i64(x: i64) -> (y: i64)
    requires
        x > i64::MIN,
    ensures
        y == abs(x as int),
{
    if x < 0 { -x } else { x }
}

/// Hex distance on 64-bit integers, where it cannot overflow.
pub(crate) fn hex_distance_wide(a: &HexCoord, b: &HexCoord) -> (d: i64)
    ensures
        d == hex_dist(*a, *b),
{
    let aq = offset2axial(a);
    let bq = offset2axial(b);
    let dq = abs_i64(aq - bq);
    let dr = abs_i64(a.r as i64 - b.r as i64);
    let ds = abs_i64(aq - bq + (a.r as i64 - b.r as i64));
    if dq >= dr && dq >= ds {
        dq
    } else if dr >= ds {
        dr
    } else {
        ds
    }
}

/// Number of hex steps between two cells.
pub fn hex_distance(a: &HexCoord, b: &HexCoord) -> (d: i32)
    requires
        hex_dist(*a, *b) <= i32::MAX,
    ensures
        d == hex_dist(*a, *b),
{
    hex_distance_wide(a, b) as i32
}

/// Whether `v` holds `c`.
pub fn contains_coord(v: &Vec<HexCoord>, c: &HexCoord) -> (b: bool)
    ensures
        b == v@.contains(*c),
{
    let mut i: usize = 0;
    while i < v.len()
        invariant
            i <= v.len(),
            forall|j: int| 0 <= j < i ==> v@[j] != *c,
        decreases v.len() - i,
    {
        if v[i] == *c {
            return true;
        }
        i = i + 1;
    }
    false
}

/// Which neighbour of `from` the cell `to` is, if it is one.
pub fn neighbor_index(from: &HexCoord, to: &HexCoord) -> (k: Option<usize>)
    requires
        from.is_interior(),
    ensures
        match k {
            Some(i) => i < 6 && *to == neighbor_at(*from, i as int),
            None => !is_neighbor(*from, *to),
        },
{
    let ns = get_neighbors(from);
    let mut i: usize = 0;
    while i < 6
        invariant
            ns@.len() == 6,
            forall|k: int| 0 <= k < 6 ==> #[trigger] ns@[k] == neighbor_at(*from, k),
            from.is_interior(),
            i <= 6,
            forall|k: int| 0 <= k < i ==> neighbor_at(*from, k) != *to,
        decreases 6 - i,
    {
        if ns[i] == *to {
            return Some(i);
        }
        i = i + 1;
    }
    proof {
        if is_neighbor(*from, *to) {
            let k: int = if is_kth_neighbor(*from, *to, 0) { 0 } else if is_kth_neighbor(*from, *to, 1) { 1 } else if is_kth_neighbor(*from, *to, 2) { 2 } else if is_kth_neighbor(*from, *to, 3) { 3 } else if is_kth_neighbor(*from, *to, 4) { 4 } else { 5 };
            assert(neighbor_at(*from, k) == *to);
        }
    }
    None
}

/// The six neighbours of a cell, in the order of its row's table.
pub fn get_neighbors(coord: &HexCoord) -> (ns: Vec<HexCoord>)
    requires
        coord.is_interior(),
    ensures
        ns@.len() == 6,
        forall|k: int| 0 <= k < 6 ==> #[trigger] ns@[k] == neighbor_at(*coord, k),
{
    let q = coord.q;
    let r = coord.r;
    if r % 2 == 0 {
        vec![
            HexCoord::new(q + 1, r),
            HexCoord::new(q, r + 1),
            HexCoord::new(q - 1, r + 1),
            HexCoord::new(q - 1, r),
            HexCoord::new(q - 1, r - 1),
            HexCoord::new(q, r - 1),
        ]
    } else {
        vec![
            HexCoord::new(q + 1, r),
            HexCoord::new(q + 1, r + 1),
            HexCoord::new(q, r + 1),
            HexCoord::new(q - 1, r),
            HexCoord::new(q, r - 1),
            HexCoord::new(q + 1, r - 1),
        ]
    }
}

/// The distance from a cell to itself is zero, and distance is symmetric.
pub proof fn lemma_hex_distance_zero_and_symmetric(a: HexCoord, b: HexCoord)
    ensures
        hex_dist(a, a) == 0,
        hex_dist(a, b) == hex_dist(b, a),
{
}

/// Distance obeys the triangle inequality.
pub proof fn lemma_hex_distance_triangle(a: HexCoord, b: HexCoord, c: HexCoord)
    ensures
        hex_dist(a, c) <= hex_dist(a, b) + hex_dist(b, c),
{
}

/// Each neighbour of a cell lies at distance one from it.
pub proof fn lemma_neighbor_at_distance_one(a: HexCoord, b: HexCoord)
    requires
        is_neighbor(a, b),
    ensures
        hex_dist(a, b) == 1,
{
}

/// Every cell at distance one is a neighbour.
pub proof fn lemma_distance_one_is_neighbor(p: HexCoord, t: HexCoord)
    requires
        hex_dist(p, t) == 1,
    ensures
        is_neighbor(p, t),
{
    let dr = t.r - p.r;
    assert(abs(dr) <= 1);
    if p.r % 2 == 0 {
        assert(p.r / 2 * 2 == p.r);
        if dr == 1 {
            assert(t.r / 2 == p.r / 2);
        } else if dr == -1 {
            assert(t.r / 2 == p.r / 2 - 1);
        }
    } else {
        assert(p.r / 2 * 2 + 1 == p.r);
        if dr == 1 {
            assert(t.r / 2 == p.r / 2 + 1);
        } else if dr == -1 {
            assert(t.r / 2 == p.r / 2);
        }
    }
}

/// An interior cell has six distinct neighbours, each at distance one.
pub proof fn lemma_neighbors_distinct_at_distance_one(c: HexCoord)
    requires
        c.is_interior(),
    ensures
        forall|i: int, j: int|
            0 <= i < 6 && 0 <= j < 6 && i != j ==> neighbor_at(c, i) != neighbor_at(c, j),
        forall|k: int|
            0 <= k < 6 ==> is_neighbor(c, #[trigger] neighbor_at(c, k)) && hex_dist(c, neighbor_at(c, k)) == 1,
{
    assert forall|k: int| 0 <= k < 6 implies is_neighbor(c, #[trigger] neighbor_at(c, k)) && hex_dist(
        c,
        neighbor_at(c, k),
    ) == 1 by {
        assert(is_kth_neighbor(c, neighbor_at(c, k), k));
        lemma_neighbor_at_distance_one(c, neighbor_at(c, k));
    }
}

/// The neighbour to step to when heading for `goal`: along the row when the
/// rows agree, otherwise one row toward the goal, leaning toward its axial
/// column.
pub open spec fn toward_index(c: HexCoord, goal: HexCoord) -> int {
    let dx = axial_q(goal) - axial_q(c);
    let dy = goal.r - c.r;
    if dy == 0 {
        if dx > 0 { 0 } else { 3 }
    } else if dy > 0 {
        if dx < 0 { 2 } else { 1 }
    } else {
        if dx > 0 { 5 } else { 4 }
    }
}

pub open spec fn between(a: int, x: int, b: int) -> bool {
    (a <= x <= b) || (b <= x <= a)
}

/// The step toward the goal brings it one closer and stays between the cell
/// and the goal in both axial coordinates.
pub proof fn lemma_toward_goal(c: HexCoord, goal: HexCoord)
    requires
        c != goal,
        c.is_interior(),
    ensures
        ({
            let k = toward_index(c, goal);
            let n = neighbor_at(c, k);
            &&& 0 <= k < 6
            &&& is_kth_neighbor(c, n, k)
            &&& hex_dist(n, goal) == hex_dist(c, goal) - 1
            &&& between(axial_q(c), axial_q(n), axial_q(goal))
            &&& between(c.r as int, n.r as int, goal.r as int)
        }),
{
    let k = toward_index(c, goal);
    let n = neighbor_at(c, k);
    assert(is_kth_neighbor(c, n, k));
    if c.r % 2 == 0 {
        assert(c.r / 2 * 2 == c.r);
        assert((c.r + 1) / 2 == c.r / 2);
        assert((c.r - 1) / 2 == c.r / 2 - 1);
    } else {
        assert(c.r / 2 * 2 + 1 == c.r);
        assert((c.r + 1) / 2 == c.r / 2 + 1);
        assert((c.r - 1) / 2 == c.r / 2);
    }
}

/// A cell on a shortest route between `a` and `b` lies between them in both
/// axial coordinates.
pub proof fn lemma_on_route_between(a: HexCoord, c: HexCoord, b: HexCoord)
    requires
        hex_dist(a, c) + hex_dist(c, b) == hex_dist(a, b),
    ensures
        between(axial_q(a), axial_q(c), axial_q(b)),
        between(a.r as int, c.r as int, b.r as int),
{
}

} // verus!
