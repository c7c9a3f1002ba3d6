//! A* pathfinding over the world grid: 4-connected neighbours, unit
//! step cost, Manhattan heuristic, and a bounded expansion budget so
//! that a fully enclosed goal cannot stall a tick. A returned path
//! starts at the cell after `start`, ends at `goal`, and every cell on
//! it is walkable.
use vstd::prelude::*;

use crate::world::WorldGrid;

verus! {

/// Expansion budget: after this many popped nodes the search reports
/// failure, which callers treat the same as an unreachable goal.
pub const MAX_ITERATIONS: u32 = 1000;

/// Cost of one orthogonal step.
pub const STEP_COST: u32 = 10;

/// Two cells are 4-connected: they differ by one step along exactly
/// one axis.
pub open spec fn adjacent(a: (i32, i32), b: (i32, i32)) -> bool {
    ||| (b.0 == a.0 + 1 && b.1 == a.1)
    ||| (b.0 == a.0 - 1 && b.1 == a.1)
    ||| (b.0 == a.0 && b.1 == a.1 + 1)
    ||| (b.0 == a.0 && b.1 == a.1 - 1)
}

pub open spec fn iabs(v: int) -> int {
    if v < 0 { -v } else { v }
}

/// Manhattan distance, the search's admissible heuristic.
pub open spec fn manhattan(a: (i32, i32), b: (i32, i32)) -> int {
    iabs(b.0 - a.0) + iabs(b.1 - a.1)
}

/// Every cell of the sequence is walkable on the grid.
pub open spec fn all_walkable(grid: WorldGrid, p: Seq<(i32, i32)>) -> bool {
    forall|k: int| 0 <= k < p.len() ==> grid.walkable_at(#[trigger] p[k].0 as int, p[k].1 as int)
}

/// Consecutive cells of the sequence are 4-connected.
pub open spec fn is_unit_path(p: Seq<(i32, i32)>) -> bool {
    forall|k: int| 0 <= k < p.len() - 1 ==> adjacent(#[trigger] p[k], p[k + 1])
}

/// What `find_path` promises of a returned path: a walkable unit-step
/// route that leaves from a neighbour of `start` and ends at `goal`,
/// empty exactly when `start == goal`.
pub open spec fn path_connects(
    grid: WorldGrid,
    start: (i32, i32),
    goal: (i32, i32),
    p: Seq<(i32, i32)>,
) -> bool {
    &&& all_walkable(grid, p)
    &&& is_unit_path(p)
    &&& (p.len() > 0 ==> adjacent(start, p[0]) && p.last() == goal)
    &&& (p.len() == 0 ==> start == goal)
}

/// `pt` tabulates the position of every cell index: entry `i` is an
/// in-bounds coordinate whose row-major index is `i`.
pub(crate) open spec fn pos_inv(grid: WorldGrid, pt: Seq<(i32, i32)>) -> bool {
    &&& pt.len() == grid.width * grid.height
    &&& forall|i: int| 0 <= i < pt.len()
        ==> grid.in_bounds_spec(#[trigger] pt[i].0 as int, pt[i].1 as int)
            && grid.idx(pt[i].0 as int, pt[i].1 as int) == i
}

/// The position table inverts the index function.
proof fn lemma_pos_at(grid: WorldGrid, pt: Seq<(i32, i32)>, x: i32, y: i32)
    requires
        grid.wf(),
        pos_inv(grid, pt),
        grid.in_bounds_spec(x as int, y as int),
    ensures
        0 <= grid.idx(x as int, y as int) < pt.len(),
        pt[grid.idx(x as int, y as int)] == (x, y),
{
    let w = grid.width as int;
    let h = grid.height as int;
    let i = grid.idx(x as int, y as int);
    assert(0 <= (y as int) * w + (x as int) < h * w && w * h == h * w) by (nonlinear_arith)
        requires 0 <= x < w && 0 <= y < h
    ;
    assert(0 <= i < w * h);
    let px = pt[i].0 as int;
    let py = pt[i].1 as int;
    assert(py * w + px == (y as int) * w + (x as int));
    assert(px == x as int && py == y as int) by (nonlinear_arith)
        requires
            py * w + px == (y as int) * w + (x as int),
            0 <= px < w,
            0 <= x < w,
            0 <= py,
            0 <= y,
    ;
}

/// The parent link of cell `i` is sound: the parent exists, both
/// costs are set, the cost strictly grows along the link, the two
/// cells are 4-connected, and `i` itself is walkable.
spec fn came_ok(
    grid: WorldGrid,
    pt: Seq<(i32, i32)>,
    gs: Seq<u32>,
    came: Seq<usize>,
    i: int,
) -> bool {
    let j = came[i] as int;
    &&& 0 <= j < pt.len()
    &&& gs[i] < u32::MAX
    &&& gs[j] < u32::MAX
    &&& gs[j] + STEP_COST <= gs[i]
    &&& adjacent(pt[j], pt[i])
    &&& grid.walkable_at(pt[i].0 as int, pt[i].1 as int)
}

/// The parent links form a forest rooted at the start cell: costs
/// strictly decrease toward the root, so following parents always
/// terminates at `si`.
spec fn forest_inv(
    grid: WorldGrid,
    pt: Seq<(i32, i32)>,
    gs: Seq<u32>,
    came: Seq<usize>,
    si: int,
) -> bool {
    let n = pt.len() as int;
    &&& gs.len() == n
    &&& came.len() == n
    &&& 0 <= si < n
    &&& gs[si] == 0
    &&& came[si] == n
    &&& forall|i: int| 0 <= i < n ==> #[trigger] came[i] <= n
    &&& forall|i: int| 0 <= i < n && #[trigger] came[i] != n ==> came_ok(grid, pt, gs, came, i)
    &&& forall|i: int| 0 <= i < n && #[trigger] gs[i] < u32::MAX && came[i] == n ==> i == si
}

/// Every set cost is bounded by the number of queue insertions so
/// far, which bounds all cost arithmetic.
spec fn gbound_inv(gs: Seq<u32>, pushes: u32) -> bool {
    forall|i: int| 0 <= i < gs.len() && #[trigger] gs[i] < u32::MAX
        ==> gs[i] <= STEP_COST * pushes
}

/// Every open-queue entry holds an in-bounds position whose cost is
/// set, with bounded cost and heuristic fields; every entry's cell is
/// walkable or the start cell itself.
spec fn open_inv(
    grid: WorldGrid,
    pt: Seq<(i32, i32)>,
    gs: Seq<u32>,
    open: Seq<(i32, i32, u32, u32)>,
    pushes: u32,
    si: int,
) -> bool {
    forall|k: int| 0 <= k < open.len() ==> {
        let e = #[trigger] open[k];
        &&& grid.in_bounds_spec(e.0 as int, e.1 as int)
        &&& 0 <= grid.idx(e.0 as int, e.1 as int) < gs.len()
        &&& gs[grid.idx(e.0 as int, e.1 as int)] < u32::MAX
        &&& e.2 <= STEP_COST * pushes
        &&& e.3 <= 8192
        &&& (grid.walkable_at(e.0 as int, e.1 as int) || grid.idx(e.0 as int, e.1 as int) == si)
    }
}

/// Some open-queue entry sits at position `p`.
#[verifier::opaque]
spec fn has_entry(open: Seq<(i32, i32, u32, u32)>, p: (i32, i32)) -> bool {
    exists|k: int| 0 <= k < open.len() && ((#[trigger] open[k]).0, open[k].1) == p
}

/// Every in-bounds walkable 4-neighbour of `(px, py)` has its cost
/// set.
#[verifier::opaque]
spec fn nbrs_settled(grid: WorldGrid, gs: Seq<u32>, px: int, py: int) -> bool {
    &&& (grid.in_bounds_spec(px + 1, py) && grid.cell(px + 1, py).walkable ==> gs[grid.idx(
        px + 1,
        py,
    )] < u32::MAX)
    &&& (grid.in_bounds_spec(px - 1, py) && grid.cell(px - 1, py).walkable ==> gs[grid.idx(
        px - 1,
        py,
    )] < u32::MAX)
    &&& (grid.in_bounds_spec(px, py + 1) && grid.cell(px, py + 1).walkable ==> gs[grid.idx(
        px,
        py + 1,
    )] < u32::MAX)
    &&& (grid.in_bounds_spec(px, py - 1) && grid.cell(px, py - 1).walkable ==> gs[grid.idx(
        px,
        py - 1,
    )] < u32::MAX)
}

/// What makes the search exhaustive: a cost-set, unclosed cell always
/// has an open entry; a closed cell has its cost set, a walkable (or
/// start) position, and all its walkable neighbours cost-set; and the
/// goal is never closed — it is returned instead.
spec fn exhaustive_inv(
    grid: WorldGrid,
    pt: Seq<(i32, i32)>,
    gs: Seq<u32>,
    closed: Seq<bool>,
    open: Seq<(i32, i32, u32, u32)>,
    si: int,
    gi: int,
) -> bool {
    &&& forall|i: int| 0 <= i < gs.len() && (#[trigger] gs[i]) < u32::MAX && !closed[i]
        ==> has_entry(open, pt[i])
    &&& forall|i: int| 0 <= i < closed.len() && #[trigger] closed[i] ==> nbrs_settled(
        grid,
        gs,
        pt[i].0 as int,
        pt[i].1 as int,
    )
    &&& forall|i: int| 0 <= i < closed.len() && #[trigger] closed[i] ==> gs[i] < u32::MAX && (
    grid.cells[i].walkable || i == si)
    &&& 0 <= gi < closed.len() && !closed[gi]
}

/// Number of walkable cells among the first `k`.
pub open spec fn walkable_prefix_count(cells: Seq<crate::components::Terrain>, k: int) -> int
    decreases k,
{
    if k <= 0 {
        0int
    } else {
        walkable_prefix_count(cells, k - 1) + if cells[k - 1].walkable {
            1int
        } else {
            0int
        }
    }
}

/// Number of walkable cells of the grid: with `4·(count+1)+1` at most
/// the expansion budget, the search cannot run out of budget, so on
/// such grids a reachable goal is always found.
pub open spec fn walkable_cell_count(grid: WorldGrid) -> int {
    walkable_prefix_count(grid.cells@, grid.cells@.len() as int)
}

/// Number of closed cells among the first `k`.
spec fn closed_prefix_count(closed: Seq<bool>, k: int) -> int
    decreases k,
{
    if k <= 0 {
        0int
    } else {
        closed_prefix_count(closed, k - 1) + if closed[k - 1] {
            1int
        } else {
            0int
        }
    }
}

/// A sequence with no closed cells counts zero.
proof fn lemma_closed_count_zero(closed: Seq<bool>, k: int)
    requires
        k <= closed.len(),
        forall|i: int| 0 <= i < closed.len() ==> !(#[trigger] closed[i]),
    ensures
        closed_prefix_count(closed, k) == 0,
    decreases k,
{
    if k > 0 {
        lemma_closed_count_zero(closed, k - 1);
    }
}

/// Closing one open cell raises the closed count by exactly one.
proof fn lemma_closed_count_update(closed: Seq<bool>, j: int, k: int)
    requires
        0 <= j < closed.len(),
        !closed[j],
        k <= closed.len(),
    ensures
        closed_prefix_count(closed.update(j, true), k) == closed_prefix_count(closed, k) + if j < k {
            1int
        } else {
            0int
        },
    decreases k,
{
    if k > 0 {
        lemma_closed_count_update(closed, j, k - 1);
    }
}

/// When every closed cell is walkable or the single start cell, the
/// closed count is bounded by the walkable count plus one.
proof fn lemma_closed_le_walkable(
    cells: Seq<crate::components::Terrain>,
    closed: Seq<bool>,
    si: int,
    k: int,
)
    requires
        closed.len() == cells.len(),
        k <= cells.len(),
        0 <= si,
        forall|i: int| 0 <= i < closed.len() && #[trigger] closed[i] ==> cells[i].walkable || i
            == si,
    ensures
        closed_prefix_count(closed, k) <= walkable_prefix_count(cells, k) + if si < k {
            1int
        } else {
            0int
        },
    decreases k,
{
    if k > 0 {
        lemma_closed_le_walkable(cells, closed, si, k - 1);
    }
}

/// Pushing a queue entry keeps every existing entry.
proof fn lemma_push_keeps_entry(
    open0: Seq<(i32, i32, u32, u32)>,
    e: (i32, i32, u32, u32),
    p: (i32, i32),
)
    requires
        has_entry(open0, p),
    ensures
        has_entry(open0.push(e), p),
{
    reveal(has_entry);
    let k = choose|k: int| 0 <= k < open0.len() && ((#[trigger] open0[k]).0, open0[k].1) == p;
    assert((open0.push(e)[k].0, open0.push(e)[k].1) == p);
}

/// Settling more cells never unsettles a cell's neighbours.
proof fn lemma_nbrs_settled_monotone(
    grid: WorldGrid,
    gs1: Seq<u32>,
    gs2: Seq<u32>,
    px: int,
    py: int,
)
    requires
        grid.wf(),
        gs1.len() == grid.cells@.len(),
        gs2.len() == grid.cells@.len(),
        forall|x: int| 0 <= x < gs1.len() && #[trigger] gs1[x] < u32::MAX ==> gs2[x] < u32::MAX,
        nbrs_settled(grid, gs1, px, py),
    ensures
        nbrs_settled(grid, gs2, px, py),
{
    reveal(nbrs_settled);
    if grid.in_bounds_spec(px + 1, py) && grid.cell(px + 1, py).walkable {
        grid.lemma_idx_in_range(px + 1, py);
    }
    if grid.in_bounds_spec(px - 1, py) && grid.cell(px - 1, py).walkable {
        grid.lemma_idx_in_range(px - 1, py);
    }
    if grid.in_bounds_spec(px, py + 1) && grid.cell(px, py + 1).walkable {
        grid.lemma_idx_in_range(px, py + 1);
    }
    if grid.in_bounds_spec(px, py - 1) && grid.cell(px, py - 1).walkable {
        grid.lemma_idx_in_range(px, py - 1);
    }
}

/// Removing one queue entry keeps every entry that sits at a
/// different position.
proof fn lemma_remove_keeps_entry(open0: Seq<(i32, i32, u32, u32)>, b: int, p: (i32, i32))
    requires
        0 <= b < open0.len(),
        has_entry(open0, p),
        (open0[b].0, open0[b].1) != p,
    ensures
        has_entry(open0.remove(b), p),
{
    reveal(has_entry);
    let k = choose|k: int| 0 <= k < open0.len() && ((#[trigger] open0[k]).0, open0[k].1) == p;
    open0.remove_ensures(b);
    if k < b {
        assert((open0.remove(b)[k].0, open0.remove(b)[k].1) == p);
    } else {
        assert(k > b);
        assert(open0.remove(b)[k - 1] == open0[k]);
        assert((open0.remove(b)[k - 1].0, open0.remove(b)[k - 1].1) == p);
    }
}

/// After removing the popped entry of the (now closed) cell `ci`,
/// every other settled, unclosed cell still has an open entry.
proof fn lemma_entries_cover_after_pop(
    grid: WorldGrid,
    pt: Seq<(i32, i32)>,
    gs: Seq<u32>,
    closed: Seq<bool>,
    open0: Seq<(i32, i32, u32, u32)>,
    best: int,
    ci: int,
)
    requires
        grid.wf(),
        pos_inv(grid, pt),
        gs.len() == pt.len(),
        closed.len() == pt.len(),
        0 <= best < open0.len(),
        0 <= ci < pt.len(),
        (open0[best].0, open0[best].1) == pt[ci],
        closed[ci],
        forall|i: int| 0 <= i < gs.len() && (#[trigger] gs[i]) < u32::MAX && !closed[i]
            ==> has_entry(open0, pt[i]),
    ensures
        forall|i: int| 0 <= i < gs.len() && (#[trigger] gs[i]) < u32::MAX && !closed[i]
            ==> has_entry(open0.remove(best), pt[i]),
{
    assert forall|i: int|
        0 <= i < gs.len() && (#[trigger] gs[i]) < u32::MAX && !closed[i] implies has_entry(
        open0.remove(best),
        pt[i],
    ) by {
        reveal(has_entry);
        if pt[i] == pt[ci] {
            assert(grid.idx(pt[i].0 as int, pt[i].1 as int) == i);
            assert(grid.idx(pt[ci].0 as int, pt[ci].1 as int) == ci);
        }
        lemma_remove_keeps_entry(open0, best, pt[i]);
    }
}

/// After settling cell `ni` at cost `e.2` and pushing its entry, open
/// entries still cover every settled, unclosed cell, and the
/// neighbour settlement of every closed cell (but the one being
/// expanded, `ci`, whose settlement is still in progress) survives.
proof fn lemma_frontier_after_push(
    grid: WorldGrid,
    pt: Seq<(i32, i32)>,
    gs0: Seq<u32>,
    gs1: Seq<u32>,
    closed: Seq<bool>,
    open1: Seq<(i32, i32, u32, u32)>,
    e: (i32, i32, u32, u32),
    ni: int,
    ci: int,
)
    requires
        grid.wf(),
        pos_inv(grid, pt),
        gs0.len() == pt.len(),
        closed.len() == pt.len(),
        pt.len() == grid.cells@.len(),
        0 <= ni < pt.len(),
        gs1 == gs0.update(ni, e.2),
        e.2 < u32::MAX,
        (e.0, e.1) == pt[ni],
        forall|i: int| 0 <= i < gs0.len() && (#[trigger] gs0[i]) < u32::MAX && !closed[i]
            ==> has_entry(open1, pt[i]),
        forall|i: int| 0 <= i < closed.len() && #[trigger] closed[i] && i != ci ==> nbrs_settled(
            grid,
            gs0,
            pt[i].0 as int,
            pt[i].1 as int,
        ),
    ensures
        forall|i: int| 0 <= i < gs1.len() && (#[trigger] gs1[i]) < u32::MAX && !closed[i]
            ==> has_entry(open1.push(e), pt[i]),
        forall|i: int| 0 <= i < closed.len() && #[trigger] closed[i] && i != ci ==> nbrs_settled(
            grid,
            gs1,
            pt[i].0 as int,
            pt[i].1 as int,
        ),
{
    assert forall|x: int| 0 <= x < gs0.len() && #[trigger] gs0[x] < u32::MAX implies gs1[x]
        < u32::MAX by {}
    assert forall|i: int|
        0 <= i < closed.len() && #[trigger] closed[i] && i != ci implies nbrs_settled(
        grid,
        gs1,
        pt[i].0 as int,
        pt[i].1 as int,
    ) by {
        lemma_nbrs_settled_monotone(grid, gs0, gs1, pt[i].0 as int, pt[i].1 as int);
    }
    assert forall|i: int|
        0 <= i < gs1.len() && (#[trigger] gs1[i]) < u32::MAX && !closed[i] implies has_entry(
        open1.push(e),
        pt[i],
    ) by {
        reveal(has_entry);
        if i == ni {
            assert((open1.push(e).last().0, open1.push(e).last().1) == pt[ni]);
        } else {
            assert(gs0[i] < u32::MAX);
            lemma_push_keeps_entry(open1, e, pt[i]);
        }
    }
}

/// Once every cost-set cell is closed and every closed cell's
/// walkable neighbours are cost-set, every cell of a walkable route
/// from the start is closed — so an unexplored route cannot survive
/// an emptied queue.
proof fn lemma_route_settled(
    grid: WorldGrid,
    pt: Seq<(i32, i32)>,
    gs: Seq<u32>,
    closed: Seq<bool>,
    si: int,
    start: (i32, i32),
    goal: (i32, i32),
    q: Seq<(i32, i32)>,
    j: int,
)
    requires
        grid.wf(),
        pos_inv(grid, pt),
        gs.len() == pt.len(),
        closed.len() == pt.len(),
        0 <= si < pt.len(),
        pt[si] == start,
        gs[si] < u32::MAX,
        path_connects(grid, start, goal, q),
        forall|i: int| 0 <= i < gs.len() && (#[trigger] gs[i]) < u32::MAX ==> closed[i],
        forall|i: int| 0 <= i < closed.len() && #[trigger] closed[i] ==> nbrs_settled(
            grid,
            gs,
            pt[i].0 as int,
            pt[i].1 as int,
        ),
        0 <= j < q.len(),
    ensures
        0 <= grid.idx(q[j].0 as int, q[j].1 as int) < gs.len(),
        gs[grid.idx(q[j].0 as int, q[j].1 as int)] < u32::MAX,
        closed[grid.idx(q[j].0 as int, q[j].1 as int)],
    decreases j,
{
    reveal(nbrs_settled);
    assert(grid.walkable_at(q[j].0 as int, q[j].1 as int));
    lemma_pos_at(grid, pt, q[j].0, q[j].1);
    let prev = if j == 0 {
        start
    } else {
        q[j - 1]
    };
    if j == 0 {
        assert(closed[si]);
        assert(nbrs_settled(grid, gs, start.0 as int, start.1 as int));
        assert(adjacent(start, q[0]));
    } else {
        lemma_route_settled(grid, pt, gs, closed, si, start, goal, q, j - 1);
        let pi = grid.idx(q[j - 1].0 as int, q[j - 1].1 as int);
        lemma_pos_at(grid, pt, q[j - 1].0, q[j - 1].1);
        assert(nbrs_settled(grid, gs, q[j - 1].0 as int, q[j - 1].1 as int));
        assert(adjacent(q[j - 1], q[j]));
    }
}

/// Sign of an integer: -1, 0 or 1.
pub open spec fn sgn(v: int) -> int {
    if v > 0 { 1int } else if v < 0 { -1int } else { 0int }
}

/// The cell one unit step from `a` toward `b` along each axis.
pub open spec fn step_toward(a: (i32, i32), b: (i32, i32)) -> (i32, i32) {
    ((a.0 + sgn(b.0 - a.0)) as i32, (a.1 + sgn(b.1 - a.1)) as i32)
}

/// The unit steps walked from `a` to `b`: excludes `a`, includes `b`,
/// empty when the two are equal.
pub open spec fn seg_steps(a: (i32, i32), b: (i32, i32)) -> Seq<(i32, i32)>
    decreases manhattan(a, b) when manhattan(a, b) >= 0
{
    if a == b {
        Seq::empty()
    } else {
        seq![step_toward(a, b)] + seg_steps(step_toward(a, b), b)
    }
}

/// The unit steps walked through every waypoint of `s`, starting from
/// `a` (which is not itself emitted).
pub open spec fn expand_from(a: (i32, i32), s: Seq<(i32, i32)>) -> Seq<(i32, i32)>
    decreases s.len(),
{
    if s.len() == 0 {
        Seq::empty()
    } else {
        seg_steps(a, s[0]) + expand_from(s[0], s.drop_first())
    }
}

/// Re-expansion of a waypoint path into the unit-step route it stands
/// for: the first waypoint, then one cell per unit step.
pub open spec fn expand_path_spec(s: Seq<(i32, i32)>) -> Seq<(i32, i32)> {
    if s.len() == 0 {
        Seq::empty()
    } else {
        seq![s[0]] + expand_from(s[0], s.drop_first())
    }
}

/// Stepping toward a distinct cell strictly shrinks the Manhattan
/// distance and never leaves the segment's bounding box.
proof fn lemma_step_toward_closer(a: (i32, i32), b: (i32, i32))
    requires
        a != b,
    ensures
        manhattan(step_toward(a, b), b) == manhattan(a, b) - 1 || manhattan(
            step_toward(a, b),
            b,
        ) == manhattan(a, b) - 2,
        manhattan(a, b) >= 1,
{
}

/// One adjacent step expands to exactly that step.
proof fn lemma_seg_steps_adjacent(a: (i32, i32), b: (i32, i32))
    requires
        adjacent(a, b),
    ensures
        seg_steps(a, b) == seq![b],
{
    assert(step_toward(a, b) == b);
    assert(seg_steps(b, b) == Seq::<(i32, i32)>::empty());
    assert(seg_steps(a, b) =~= seq![b]);
}

/// Appending a waypoint appends its segment's steps.
proof fn lemma_expand_from_push(a: (i32, i32), s: Seq<(i32, i32)>, w: (i32, i32))
    ensures
        expand_from(a, s.push(w)) == expand_from(a, s) + seg_steps(
            if s.len() == 0 { a } else { s.last() },
            w,
        ),
    decreases s.len(),
{
    if s.len() == 0 {
        assert(s.push(w)[0] == w);
        assert(s.push(w).drop_first() =~= Seq::<(i32, i32)>::empty());
        assert(expand_from(a, s.push(w)) == seg_steps(a, w) + expand_from(
            w,
            s.push(w).drop_first(),
        ));
        assert(expand_from(w, s.push(w).drop_first()) == Seq::<(i32, i32)>::empty());
        assert(expand_from(a, s) == Seq::<(i32, i32)>::empty());
        assert(expand_from(a, s.push(w)) =~= expand_from(a, s) + seg_steps(a, w));
    } else {
        assert(s.push(w)[0] == s[0]);
        assert(s.push(w).drop_first() =~= s.drop_first().push(w));
        lemma_expand_from_push(s[0], s.drop_first(), w);
        if s.len() == 1 {
            assert(s.drop_first().len() == 0);
            assert(s[0] == s.last());
        } else {
            assert(s.drop_first().last() == s.last());
        }
        assert(expand_from(a, s.push(w)) =~= expand_from(a, s) + seg_steps(
            if s.len() == 0 { a } else { s.last() },
            w,
        ));
    }
}

/// Appending a waypoint to a nonempty waypoint path appends its
/// segment's steps to the re-expansion.
proof fn lemma_expand_spec_push(s: Seq<(i32, i32)>, w: (i32, i32))
    requires
        s.len() >= 1,
    ensures
        expand_path_spec(s.push(w)) == expand_path_spec(s) + seg_steps(s.last(), w),
{
    assert(s.push(w)[0] == s[0]);
    assert(s.push(w).drop_first() =~= s.drop_first().push(w));
    lemma_expand_from_push(s[0], s.drop_first(), w);
    if s.len() == 1 {
        assert(s[0] == s.last());
    } else {
        assert(s.drop_first().last() == s.last());
    }
    assert(expand_path_spec(s.push(w)) =~= expand_path_spec(s) + seg_steps(s.last(), w));
}

/// Whether the steps of `p` from index `i` up to `j` all move by the
/// same unit offset `(dx, dy)`.
pub open spec fn straight_run(p: Seq<(i32, i32)>, i: int, j: int, dx: int, dy: int) -> bool {
    forall|k: int| i <= k < j ==> (#[trigger] p[k + 1]).0 == p[k].0 + dx && p[k + 1].1 == p[k].1
        + dy
}

/// A unit offset: one step along exactly one axis.
pub open spec fn unit_offset(dx: int, dy: int) -> bool {
    ||| (dx == 1 && dy == 0)
    ||| (dx == -1 && dy == 0)
    ||| (dx == 0 && dy == 1)
    ||| (dx == 0 && dy == -1)
}

/// Over a straight run the coordinates move linearly with the index.
proof fn lemma_run_offset(p: Seq<(i32, i32)>, i: int, j: int, dx: int, dy: int)
    requires
        0 <= i <= j < p.len(),
        unit_offset(dx, dy),
        straight_run(p, i, j, dx, dy),
    ensures
        p[j].0 == p[i].0 + (j - i) * dx,
        p[j].1 == p[i].1 + (j - i) * dy,
    decreases j - i,
{
    if i < j {
        lemma_run_offset(p, i, j - 1, dx, dy);
        let kk = j - 1;
        assert(p[kk + 1].0 == p[kk].0 + dx && p[kk + 1].1 == p[kk].1 + dy);
        assert((j - i) * dx == (j - 1 - i) * dx + dx) by (nonlinear_arith);
        assert((j - i) * dy == (j - 1 - i) * dy + dy) by (nonlinear_arith);
    } else {
        assert((j - i) * dx == 0) by (nonlinear_arith)
            requires i == j
        ;
        assert((j - i) * dy == 0) by (nonlinear_arith)
            requires i == j
        ;
    }
}

/// The steps of a straight run expand to exactly the run's cells.
proof fn lemma_run_expands(p: Seq<(i32, i32)>, i: int, j: int, dx: int, dy: int)
    requires
        0 <= i <= j < p.len(),
        unit_offset(dx, dy),
        straight_run(p, i, j, dx, dy),
    ensures
        seg_steps(p[i], p[j]) == p.subrange(i + 1, j + 1),
    decreases j - i,
{
    if i == j {
        assert(seg_steps(p[i], p[j]) =~= p.subrange(i + 1, j + 1));
    } else {
        lemma_run_offset(p, i, j, dx, dy);
        assert(p[j].0 - p[i].0 == (j - i) * dx && p[j].1 - p[i].1 == (j - i) * dy);
        assert(sgn((j - i) * dx) == dx && sgn((j - i) * dy) == dy) by (nonlinear_arith)
            requires j - i >= 1 && unit_offset(dx, dy)
        ;
        assert(p[i] != p[j]);
        assert(step_toward(p[i], p[j]) == p[i + 1]);
        assert(straight_run(p, i + 1, j, dx, dy));
        lemma_run_expands(p, i + 1, j, dx, dy);
        assert(seg_steps(p[i], p[j]) =~= p.subrange(i + 1, j + 1));
    }
}

/// The componentwise sign of the offset from `a` to `b`: the
/// direction of the straight segment between two waypoints.
pub open spec fn seg_dir(a: (i32, i32), b: (i32, i32)) -> (int, int) {
    (sgn(b.0 - a.0), sgn(b.1 - a.1))
}

/// A straight run's overall direction is its per-step offset.
proof fn lemma_run_dir(p: Seq<(i32, i32)>, i: int, j: int, dx: int, dy: int)
    requires
        0 <= i < j < p.len(),
        unit_offset(dx, dy),
        straight_run(p, i, j, dx, dy),
    ensures
        seg_dir(p[i], p[j]) == (dx, dy),
{
    lemma_run_offset(p, i, j, dx, dy);
    assert(sgn((j - i) * dx) == dx && sgn((j - i) * dy) == dy) by (nonlinear_arith)
        requires j - i >= 1 && unit_offset(dx, dy)
    ;
}

/// Collapses runs of adjacent, same-direction unit steps into single
/// waypoints, e.g. four consecutive easterly steps into one waypoint
/// four cells away. Re-expanding the result reproduces the input
/// route exactly, so simplification drops no cell of the route — and
/// no interior waypoint is redundant: the route's direction changes
/// at every one of them.
#[verifier::rlimit(60)]
pub fn simplify_path(path: Vec<(i32, i32)>) -> (r: Vec<(i32, i32)>)
    requires
        is_unit_path(path@),
    ensures
        r@.len() <= path@.len(),
        path@.len() == 0 ==> r@.len() == 0,
        path@.len() > 0 ==> r@.len() >= 1 && r@[0] == path@[0] && r@.last() == path@.last(),
        path@.len() > 0 ==> expand_path_spec(r@) == path@,
        forall|k: int| 1 <= k < r@.len() - 1 ==> seg_dir(#[trigger] r@[k - 1], r@[k]) != seg_dir(
            r@[k],
            r@[k + 1],
        ),
{
    let len = path.len();
    if len <= 2 {
        proof {
            if path@.len() == 1 {
                assert(expand_from(path@[0], path@.drop_first()) == Seq::<(i32, i32)>::empty());
                assert(expand_path_spec(path@) =~= path@);
            } else if path@.len() == 2 {
                assert(adjacent(path@[0], path@[1]));
                lemma_seg_steps_adjacent(path@[0], path@[1]);
                assert(path@.drop_first()[0] == path@[1]);
                assert(path@.drop_first().drop_first() =~= Seq::<(i32, i32)>::empty());
                assert(expand_from(path@[1], path@.drop_first().drop_first()) == Seq::<
                    (i32, i32),
                >::empty());
                assert(expand_path_spec(path@) =~= path@);
            }
        }
        return path;
    }
    let mut simplified: Vec<(i32, i32)> = Vec::new();
    simplified.push(path[0]);
    proof {
        assert(expand_from(path@[0], simplified@.drop_first()) == Seq::<(i32, i32)>::empty());
        assert(expand_path_spec(simplified@) =~= path@.take(1));
    }
    let mut i: usize = 0;
    while i < len - 1
        invariant
            is_unit_path(path@),
            len == path@.len(),
            3 <= len,
            i <= len - 1,
            simplified@.len() >= 1,
            simplified@.len() <= i + 1,
            simplified@[0] == path@[0],
            simplified@.last() == path@[i as int],
            expand_path_spec(simplified@) == path@.take(i as int + 1),
            forall|k: int| 1 <= k < simplified@.len() - 1 ==> seg_dir(
                #[trigger] simplified@[k - 1],
                simplified@[k],
            ) != seg_dir(simplified@[k], simplified@[k + 1]),
            simplified@.len() >= 2 && i < len - 1 ==> seg_dir(
                simplified@[simplified@.len() - 2],
                simplified@.last(),
            ) != seg_dir(path@[i as int], path@[i as int + 1]),
        decreases len - i,
    {
        let cpt = path[i];
        let npt = path[i + 1];
        let dir_x: i64 = (npt.0 as i64) - (cpt.0 as i64);
        let dir_y: i64 = (npt.1 as i64) - (cpt.1 as i64);
        proof {
            assert(adjacent(path@[i as int], path@[i as int + 1]));
        }
        let mut j: usize = i + 2;
        let mut broke = false;
        while j < len && !broke
            invariant
                is_unit_path(path@),
                len == path@.len(),
                i + 2 <= j <= len,
                i < len - 1,
                dir_x == path@[i as int + 1].0 - path@[i as int].0,
                dir_y == path@[i as int + 1].1 - path@[i as int].1,
                unit_offset(dir_x as int, dir_y as int),
                straight_run(path@, i as int, j as int - 1, dir_x as int, dir_y as int),
                broke ==> j < len && (path@[j as int].0 - path@[j as int - 1].0,
                    path@[j as int].1 - path@[j as int - 1].1) != (dir_x as int, dir_y as int),
            decreases len - j, (if broke { 0int } else { 1int }),
        {
            let a = path[j - 1];
            let b = path[j];
            let sdx: i64 = (b.0 as i64) - (a.0 as i64);
            let sdy: i64 = (b.1 as i64) - (a.1 as i64);
            let is_adj = (sdx == 1 && sdy == 0) || (sdx == -1 && sdy == 0) || (sdx == 0 && sdy
                == 1) || (sdx == 0 && sdy == -1);
            let same_dir = sdx == dir_x && sdy == dir_y;
            if !(is_adj && same_dir) {
                broke = true;
            } else {
                j = j + 1;
            }
        }
        let w = path[j - 1];
        proof {
            let os = simplified@;
            lemma_expand_spec_push(os, path@[j as int - 1]);
            lemma_run_expands(path@, i as int, j as int - 1, dir_x as int, dir_y as int);
            assert(path@.take(i as int + 1) + path@.subrange(i as int + 1, j as int) =~= path@.take(
                j as int,
            ));
            // The direction of the freshly closed run.
            lemma_run_dir(path@, i as int, j as int - 1, dir_x as int, dir_y as int);
            // An interior waypoint is born where the direction broke
            // on the way in.
            if os.len() >= 2 {
                assert(seg_dir(os[os.len() - 2], os.last()) != seg_dir(
                    path@[i as int],
                    path@[i as int + 1],
                ));
                assert(seg_dir(path@[i as int], path@[i as int + 1]) == (
                    dir_x as int,
                    dir_y as int,
                ));
            }
            // If the run broke early, the next outer iteration's
            // direction differs from this run's direction.
            if j < len {
                assert(broke);
                assert(adjacent(path@[j as int - 1], path@[j as int]));
                assert(seg_dir(path@[j as int - 1], path@[j as int]) != (
                    dir_x as int,
                    dir_y as int,
                ));
            }
        }
        simplified.push(w);
        i = j - 1;
    }
    proof {
        assert(path@.take(len as int) =~= path@);
    }
    simplified
}

/// Re-expands a waypoint path into the unit-step route it stands for:
/// from each waypoint, one cell per step toward the next waypoint.
pub fn expand_path(path: &Vec<(i32, i32)>) -> (r: Vec<(i32, i32)>)
    ensures
        r@ == expand_path_spec(path@),
{
    let mut out: Vec<(i32, i32)> = Vec::new();
    if path.len() == 0 {
        return out;
    }
    let first = path[0];
    out.push(first);
    let mut cur: (i32, i32) = first;
    let mut w: usize = 1;
    proof {
        assert(path@.subrange(1, path@.len() as int) =~= path@.drop_first());
        assert(out@ =~= seq![path@[0]]);
    }
    while w < path.len()
        invariant
            1 <= w <= path@.len(),
            out@ + expand_from(cur, path@.subrange(w as int, path@.len() as int))
                == expand_path_spec(path@),
        decreases path@.len() - w,
    {
        let target = path[w];
        proof {
            let rest = path@.subrange(w as int, path@.len() as int);
            assert(rest[0] == path@[w as int]);
            assert(rest.drop_first() =~= path@.subrange(w as int + 1, path@.len() as int));
            assert(out@ + seg_steps(cur, target) + expand_from(
                target,
                path@.subrange(w as int + 1, path@.len() as int),
            ) =~= out@ + expand_from(cur, rest));
        }
        while !(cur.0 == target.0 && cur.1 == target.1)
            invariant
                1 <= w < path@.len(),
                target == path@[w as int],
                out@ + seg_steps(cur, target) + expand_from(
                    target,
                    path@.subrange(w as int + 1, path@.len() as int),
                ) == expand_path_spec(path@),
            decreases manhattan(cur, target),
        {
            let sdx: i32 = if target.0 > cur.0 {
                1
            } else if target.0 < cur.0 {
                -1
            } else {
                0
            };
            let sdy: i32 = if target.1 > cur.1 {
                1
            } else if target.1 < cur.1 {
                -1
            } else {
                0
            };
            let nxt = (cur.0 + sdx, cur.1 + sdy);
            proof {
                lemma_step_toward_closer(cur, target);
                assert(nxt == step_toward(cur, target));
                assert(seg_steps(cur, target) == seq![nxt] + seg_steps(nxt, target));
                assert(out@.push(nxt) + seg_steps(nxt, target) =~= out@ + seg_steps(cur, target));
            }
            out.push(nxt);
            cur = nxt;
        }
        proof {
            assert(cur == target);
            assert(seg_steps(cur, target) == Seq::<(i32, i32)>::empty());
            assert(out@ + expand_from(target, path@.subrange(w as int + 1, path@.len() as int))
                =~= out@ + seg_steps(cur, target) + expand_from(
                target,
                path@.subrange(w as int + 1, path@.len() as int),
            ));
        }
        cur = target;
        w = w + 1;
    }
    proof {
        assert(path@.subrange(path@.len() as int, path@.len() as int) =~= Seq::<
            (i32, i32),
        >::empty());
        assert(expand_from(cur, Seq::<(i32, i32)>::empty()) == Seq::<(i32, i32)>::empty());
        assert(out@ + Seq::<(i32, i32)>::empty() =~= out@);
    }
    out
}

/// Manhattan distance between two in-bounds coordinates.
fn heuristic(a: (i32, i32), b: (i32, i32)) -> (h: u32)
    requires
        0 <= a.0 < 4096,
        0 <= a.1 < 4096,
        0 <= b.0 < 4096,
        0 <= b.1 < 4096,
    ensures
        h == manhattan(a, b),
        h <= 8192,
{
    let dx: u32 = if a.0 >= b.0 { (a.0 - b.0) as u32 } else { (b.0 - a.0) as u32 };
    let dy: u32 = if a.1 >= b.1 { (a.1 - b.1) as u32 } else { (b.1 - a.1) as u32 };
    dx + dy
}

/// Rebuilds the found route by following parent links back from the
/// goal to the start cell, then reversing. Costs strictly decrease
/// along the chain, so the walk terminates at the start and the
/// route never repeats a cell.
fn rebuild_route(
    pt: &Vec<(i32, i32)>,
    gsv: &Vec<u32>,
    came: &Vec<usize>,
    grid: &WorldGrid,
    si: usize,
    gi: usize,
    start: (i32, i32),
    goal: (i32, i32),
) -> (out: Vec<(i32, i32)>)
    requires
        grid.wf(),
        pos_inv(*grid, pt@),
        gsv@.len() == pt@.len(),
        came@.len() == pt@.len(),
        si < pt@.len(),
        gi < pt@.len(),
        pt@[si as int] == start,
        pt@[gi as int] == goal,
        !(start == goal),
        forest_inv(*grid, pt@, gsv@, came@, si as int),
        gsv@[gi as int] < u32::MAX,
    ensures
        path_connects(*grid, start, goal, out@),
        out@.len() > 0,
        forall|a: int| 0 <= a < out@.len() ==> #[trigger] out@[a] != start,
        forall|a: int, b: int| 0 <= a < b < out@.len() ==> out@[a] != out@[b],
{
    let n: usize = pt.len();
    let mut rev: Vec<(i32, i32)> = Vec::new();
    let mut cur_i: usize = gi;
    let mut cur_x: i32 = goal.0;
    let mut cur_y: i32 = goal.1;
    while came[cur_i] != n
        invariant
            grid.wf(),
            pos_inv(*grid, pt@),
            n == pt@.len(),
            came@.len() == n,
            gsv@.len() == n,
            si < n,
            gi < n,
            pt@[si as int] == start,
            pt@[gi as int] == goal,
            !(start == goal),
            forest_inv(*grid, pt@, gsv@, came@, si as int),
            cur_i < n,
            gsv@[cur_i as int] < u32::MAX,
            (cur_x, cur_y) == pt@[cur_i as int],
            rev@.len() == 0 ==> cur_i == gi,
            rev@.len() > 0 ==> rev@[0] == goal,
            rev@.len() > 0 ==> adjacent(pt@[cur_i as int], rev@.last()),
            forall|j: int| 0 <= j < rev@.len() ==> grid.walkable_at(
                #[trigger] rev@[j].0 as int,
                rev@[j].1 as int,
            ),
            forall|j: int| 0 <= j < rev@.len() - 1 ==> adjacent(#[trigger] rev@[j + 1], rev@[j]),
            forall|j: int| 0 <= j < rev@.len() ==> #[trigger] rev@[j] != start,
            forall|j: int| 0 <= j < rev@.len() ==> grid.idx(
                #[trigger] rev@[j].0 as int,
                rev@[j].1 as int,
            ) < n && gsv@[grid.idx(rev@[j].0 as int, rev@[j].1 as int)] > gsv@[cur_i as int],
            forall|a: int, b: int| 0 <= a < b < rev@.len() ==> gsv@[grid.idx(
                (#[trigger] rev@[a]).0 as int,
                rev@[a].1 as int,
            )] > gsv@[grid.idx((#[trigger] rev@[b]).0 as int, rev@[b].1 as int)],
        decreases gsv@[cur_i as int],
    {
        proof {
            // The cell being recorded has a parent, so it is not the
            // start cell.
            if pt@[cur_i as int] == start {
                assert(grid.idx(start.0 as int, start.1 as int) == cur_i as int);
                assert(cur_i == si);
                assert(false);
            }
        }
        rev.push((cur_x, cur_y));
        let p_i: usize = came[cur_i];
        let pp = pt[p_i];
        cur_i = p_i;
        cur_x = pp.0;
        cur_y = pp.1;
    }
    // The chain ended at the start cell.
    assert(cur_i == si);
    assert(rev@.len() > 0);

    let mut out: Vec<(i32, i32)> = Vec::new();
    let rl: usize = rev.len();
    let mut k2: usize = rl;
    while k2 > 0
        invariant
            k2 <= rl,
            rl == rev@.len(),
            out@.len() == rl - k2,
            forall|j: int| 0 <= j < out@.len() ==> #[trigger] out@[j] == rev@[rl - 1 - j],
        decreases k2,
    {
        k2 = k2 - 1;
        out.push(rev[k2]);
    }
    proof {
        assert(out@.len() == rl);
        assert(out@[0] == rev@[rl - 1]);
        assert(out@.last() == rev@[0]);
        assert forall|j: int| 0 <= j < out@.len() - 1 implies adjacent(
            #[trigger] out@[j],
            out@[j + 1],
        ) by {
            assert(out@[j] == rev@[rl - 1 - j]);
            assert(out@[j + 1] == rev@[rl - 2 - j]);
            assert(adjacent(rev@[(rl - 2 - j) + 1], rev@[rl - 2 - j]));
        }
        assert forall|a: int| 0 <= a < out@.len() implies #[trigger] out@[a] != start by {
            assert(out@[a] == rev@[rl - 1 - a]);
        }
        // Costs strictly decrease along the parent chain, so no cell
        // repeats on the route.
        assert forall|a: int, b: int| 0 <= a < b < out@.len() implies out@[a] != out@[b] by {
            assert(out@[a] == rev@[rl - 1 - a]);
            assert(out@[b] == rev@[rl - 1 - b]);
            assert(gsv@[grid.idx(rev@[rl - 1 - b].0 as int, rev@[rl - 1 - b].1 as int)]
                > gsv@[grid.idx(rev@[rl - 1 - a].0 as int, rev@[rl - 1 - a].1 as int)]);
        }
    }
    out
}

/// A* search from `start` to `goal`. Returns the cells of a shortest
/// route after `start` (which itself never appears on it, nor does
/// any cell twice) up to and including `goal`, the empty path when
/// `start == goal`, or `None` when the goal is not walkable, no route
/// exists, or the expansion budget runs out. On grids small enough
/// that the budget cannot run out, a reachable walkable goal is
/// guaranteed to be found; that the found route is shortest by hop
/// count is not part of the contract and is validated by test against
/// exhaustive search.
#[verifier::rlimit(100)]
#[verifier::spinoff_prover]
pub fn find_path(start: (i32, i32), goal: (i32, i32), grid: &WorldGrid) -> (r: Option<
    Vec<(i32, i32)>,
>)
    requires
        grid.wf(),
        grid.in_bounds_spec(start.0 as int, start.1 as int),
    ensures
        match r {
            Some(p) => {
                &&& path_connects(*grid, start, goal, p@)
                &&& (p@.len() == 0 <==> start == goal)
                &&& grid.walkable_at(goal.0 as int, goal.1 as int)
                &&& forall|a: int| 0 <= a < p@.len() ==> #[trigger] p@[a] != start
                &&& forall|a: int, b: int| 0 <= a < b < p@.len() ==> p@[a] != p@[b]
            },
            None => true,
        },
        !grid.walkable_at(goal.0 as int, goal.1 as int) ==> r is None,
        grid.walkable_at(goal.0 as int, goal.1 as int) && start == goal ==> (r matches Some(p)
            && p@.len() == 0),
        grid.walkable_at(goal.0 as int, goal.1 as int) && (exists|q: Seq<(i32, i32)>|
            path_connects(*grid, start, goal, q)) && 4 * (walkable_cell_count(*grid) + 1) + 1
            <= MAX_ITERATIONS ==> (r matches Some(_)),
{
    if !grid.is_walkable(goal.0, goal.1) {
        return None;
    }
    if start.0 == goal.0 && start.1 == goal.1 {
        return Some(Vec::new());
    }

    let w = grid.width;
    let h = grid.height;

    // Tabulate the position of every cell index.
    let mut pt: Vec<(i32, i32)> = Vec::new();
    let mut yy: i32 = 0;
    while yy < h
        invariant
            grid.wf(),
            w == grid.width,
            h == grid.height,
            0 <= yy <= h,
            pt@.len() == yy * w,
            forall|i: int| 0 <= i < pt@.len()
                ==> grid.in_bounds_spec(#[trigger] pt@[i].0 as int, pt@[i].1 as int)
                    && grid.idx(pt@[i].0 as int, pt@[i].1 as int) == i,
        decreases h - yy,
    {
        let mut xx: i32 = 0;
        while xx < w
            invariant
                grid.wf(),
                w == grid.width,
                h == grid.height,
                0 <= yy < h,
                0 <= xx <= w,
                pt@.len() == yy * w + xx,
                forall|i: int| 0 <= i < pt@.len()
                    ==> grid.in_bounds_spec(#[trigger] pt@[i].0 as int, pt@[i].1 as int)
                        && grid.idx(pt@[i].0 as int, pt@[i].1 as int) == i,
            decreases w - xx,
        {
            pt.push((xx, yy));
            xx = xx + 1;
        }
        proof {
            assert((yy + 1) * w == yy * w + w) by (nonlinear_arith);
        }
        yy = yy + 1;
    }
    proof {
        assert(h * w == w * h) by (nonlinear_arith);
    }
    let n: usize = pt.len();

    let si: usize = grid.index_of(start.0, start.1);
    let gi: usize = grid.index_of(goal.0, goal.1);
    proof {
        lemma_pos_at(*grid, pt@, start.0, start.1);
        lemma_pos_at(*grid, pt@, goal.0, goal.1);
    }

    let mut closed: Vec<bool> = Vec::new();
    let mut gsv: Vec<u32> = Vec::new();
    let mut came: Vec<usize> = Vec::new();
    let mut fill: usize = 0;
    while fill < n
        invariant
            closed@.len() == fill,
            gsv@.len() == fill,
            came@.len() == fill,
            fill <= n,
            forall|i: int| 0 <= i < fill ==> closed@[i] == false,
            forall|i: int| 0 <= i < fill ==> gsv@[i] == u32::MAX,
            forall|i: int| 0 <= i < fill ==> came@[i] == n,
        decreases n - fill,
    {
        closed.push(false);
        gsv.push(u32::MAX);
        came.push(n);
        fill = fill + 1;
    }
    gsv[si] = 0;

    let mut open_list: Vec<(i32, i32, u32, u32)> = Vec::new();
    open_list.push((start.0, start.1, 0, heuristic(start, goal)));
    let mut pushes: u32 = 1;
    let mut iterations: u32 = 0;
    let mut nclosed: u32 = 0;
    proof {
        reveal(has_entry);
        lemma_closed_count_zero(closed@, n as int);
        assert((open_list@[0].0, open_list@[0].1) == pt@[si as int]);
        assert(has_entry(open_list@, pt@[si as int]));
    }

    while open_list.len() > 0
        invariant
            grid.wf(),
            w == grid.width,
            h == grid.height,
            pos_inv(*grid, pt@),
            n == pt@.len(),
            si < n,
            gi < n,
            si == grid.idx(start.0 as int, start.1 as int),
            gi == grid.idx(goal.0 as int, goal.1 as int),
            pt@[si as int] == start,
            pt@[gi as int] == goal,
            grid.in_bounds_spec(start.0 as int, start.1 as int),
            grid.walkable_at(goal.0 as int, goal.1 as int),
            !(start == goal),
            closed@.len() == n,
            gsv@.len() == n,
            came@.len() == n,
            forest_inv(*grid, pt@, gsv@, came@, si as int),
            gbound_inv(gsv@, pushes),
            open_inv(*grid, pt@, gsv@, open_list@, pushes, si as int),
            exhaustive_inv(*grid, pt@, gsv@, closed@, open_list@, si as int, gi as int),
            iterations <= MAX_ITERATIONS,
            nclosed <= iterations,
            pushes <= 1 + 4 * nclosed,
            iterations + open_list@.len() == pushes,
            nclosed == closed_prefix_count(closed@, n as int),
        decreases MAX_ITERATIONS + 1 - iterations,
    {
        // Pop the entry with the lowest f = g + h, breaking ties by
        // the lower h.
        let mut best: usize = 0;
        let mut k: usize = 1;
        while k < open_list.len()
            invariant
                open_list@.len() > 0,
                best < open_list@.len(),
                k <= open_list@.len(),
                open_inv(*grid, pt@, gsv@, open_list@, pushes, si as int),
                pushes <= 1 + 4 * MAX_ITERATIONS,
            decreases open_list@.len() - k,
        {
            let eb = open_list[best];
            let ek = open_list[k];
            let fb: u32 = eb.2 + eb.3;
            let fk: u32 = ek.2 + ek.3;
            if fk < fb || (fk == fb && ek.3 < eb.3) {
                best = k;
            }
            k = k + 1;
        }
        let ghost open0 = open_list@;
        let cur = open_list.remove(best);
        iterations = iterations + 1;
        if iterations > MAX_ITERATIONS {
            proof {
                // The budget cannot run out on a grid small enough
                // for the success obligation: every pop consumes a
                // queue insertion, and insertions are bounded by the
                // cells ever closed — all walkable but the start.
                lemma_closed_le_walkable(grid.cells@, closed@, si as int, n as int);
                assert(iterations <= pushes);
                assert(nclosed <= walkable_cell_count(*grid) + 1);
                if 4 * (walkable_cell_count(*grid) + 1) + 1 <= MAX_ITERATIONS {
                    assert(iterations <= 1 + 4 * (walkable_cell_count(*grid) + 1));
                    assert(false);
                }
            }
            return None;
        }
        let cx = cur.0;
        let cy = cur.1;
        let ci: usize = grid.index_of(cx, cy);
        proof {
            lemma_pos_at(*grid, pt@, cx, cy);
            assert((open0[best as int].0, open0[best as int].1) == (cx, cy));
        }

        if cx == goal.0 && cy == goal.1 {
            proof {
                assert(ci == gi);
            }
            return Some(rebuild_route(&pt, &gsv, &came, grid, si, gi, start, goal));
        }

        if closed[ci] {
            proof {
                lemma_entries_cover_after_pop(
                    *grid,
                    pt@,
                    gsv@,
                    closed@,
                    open0,
                    best as int,
                    ci as int,
                );
            }
            continue;
        }
        let ghost closed0 = closed@;
        closed[ci] = true;
        nclosed = nclosed + 1;
        proof {
            lemma_closed_count_update(closed0, ci as int, n as int);
            // The goal is returned, never closed.
            if ci == gi {
                assert(pt@[ci as int] == pt@[gi as int]);
                assert(false);
            }
            // The popped entry's cell is walkable or the start, with
            // its cost set.
            assert(grid.walkable_at(cx as int, cy as int) || ci == si);
            // Entries at other positions survive the removal.
            lemma_entries_cover_after_pop(
                *grid,
                pt@,
                gsv@,
                closed@,
                open0,
                best as int,
                ci as int,
            );
        }

        let mut d: u32 = 0;
        while d < 4
            invariant
                grid.wf(),
                w == grid.width,
                h == grid.height,
                pos_inv(*grid, pt@),
                n == pt@.len(),
                si < n,
                gi < n,
                si == grid.idx(start.0 as int, start.1 as int),
                gi == grid.idx(goal.0 as int, goal.1 as int),
                pt@[si as int] == start,
                pt@[gi as int] == goal,
                grid.in_bounds_spec(start.0 as int, start.1 as int),
                grid.walkable_at(goal.0 as int, goal.1 as int),
                !(start == goal),
                closed@.len() == n,
                gsv@.len() == n,
                came@.len() == n,
                forest_inv(*grid, pt@, gsv@, came@, si as int),
                gbound_inv(gsv@, pushes),
                open_inv(*grid, pt@, gsv@, open_list@, pushes, si as int),
                1 <= iterations <= MAX_ITERATIONS,
                d <= 4,
                1 <= nclosed <= iterations,
                pushes <= 1 + 4 * (nclosed - 1) + d,
                iterations + open_list@.len() == pushes,
                nclosed == closed_prefix_count(closed@, n as int),
                ci < n,
                ci == grid.idx(cx as int, cy as int),
                pt@[ci as int] == (cx, cy),
                grid.in_bounds_spec(cx as int, cy as int),
                gsv@[ci as int] < u32::MAX,
                closed@[ci as int],
                ci != gi,
                !closed@[gi as int],
                forall|i: int|
                    0 <= i < n && (#[trigger] gsv@[i]) < u32::MAX && !closed@[i] ==> has_entry(
                        open_list@,
                        pt@[i],
                    ),
                forall|i: int|
                    0 <= i < n && #[trigger] closed@[i] && i != ci ==> nbrs_settled(
                        *grid,
                        gsv@,
                        pt@[i].0 as int,
                        pt@[i].1 as int,
                    ),
                forall|i: int| 0 <= i < n && #[trigger] closed@[i] ==> gsv@[i] < u32::MAX && (
                grid.cells@[i].walkable || i == si),
                d >= 1 && grid.in_bounds_spec(cx + 1, cy as int) && grid.cell(
                    cx + 1,
                    cy as int,
                ).walkable ==> gsv@[grid.idx(cx + 1, cy as int)] < u32::MAX,
                d >= 2 && grid.in_bounds_spec(cx - 1, cy as int) && grid.cell(
                    cx - 1,
                    cy as int,
                ).walkable ==> gsv@[grid.idx(cx - 1, cy as int)] < u32::MAX,
                d >= 3 && grid.in_bounds_spec(cx as int, cy + 1) && grid.cell(
                    cx as int,
                    cy + 1,
                ).walkable ==> gsv@[grid.idx(cx as int, cy + 1)] < u32::MAX,
                d >= 4 && grid.in_bounds_spec(cx as int, cy - 1) && grid.cell(
                    cx as int,
                    cy - 1,
                ).walkable ==> gsv@[grid.idx(cx as int, cy - 1)] < u32::MAX,
            decreases 4 - d,
        {
            let nxy: (i32, i32) = if d == 0 {
                (cx + 1, cy)
            } else if d == 1 {
                (cx - 1, cy)
            } else if d == 2 {
                (cx, cy + 1)
            } else {
                (cx, cy - 1)
            };
            let nx = nxy.0;
            let ny = nxy.1;
            if grid.is_walkable(nx, ny) {
                let ni: usize = grid.index_of(nx, ny);
                proof {
                    lemma_pos_at(*grid, pt@, nx, ny);
                }
                if !closed[ni] {
                    let tentative: u32 = gsv[ci] + STEP_COST;
                    if tentative < gsv[ni] {
                        let ghost gs0 = gsv@;
                        let ghost open1 = open_list@;
                        came[ni] = ci;
                        gsv[ni] = tentative;
                        let hh = heuristic((nx, ny), goal);
                        open_list.push((nx, ny, tentative, hh));
                        pushes = pushes + 1;
                        proof {
                            lemma_frontier_after_push(
                                *grid,
                                pt@,
                                gs0,
                                gsv@,
                                closed@,
                                open1,
                                (nx, ny, tentative, hh),
                                ni as int,
                                ci as int,
                            );
                            if grid.in_bounds_spec(cx + 1, cy as int) {
                                grid.lemma_idx_in_range(cx + 1, cy as int);
                            }
                            if grid.in_bounds_spec(cx - 1, cy as int) {
                                grid.lemma_idx_in_range(cx - 1, cy as int);
                            }
                            if grid.in_bounds_spec(cx as int, cy + 1) {
                                grid.lemma_idx_in_range(cx as int, cy + 1);
                            }
                            if grid.in_bounds_spec(cx as int, cy - 1) {
                                grid.lemma_idx_in_range(cx as int, cy - 1);
                            }
                        }
                    }
                }
            }
            d = d + 1;
        }
        proof {
            // All four neighbours settled: the freshly closed cell
            // joins the settled frontier.
            reveal(nbrs_settled);
            assert(nbrs_settled(*grid, gsv@, cx as int, cy as int));
            assert forall|i: int| 0 <= i < n && #[trigger] closed@[i] implies nbrs_settled(
                *grid,
                gsv@,
                pt@[i].0 as int,
                pt@[i].1 as int,
            ) by {
                if i == ci as int {
                    assert(pt@[i] == (cx, cy));
                }
            }
        }
    }

    proof {
        // An emptied queue means the whole reachable component is
        // closed; the goal is never closed, so no route can exist.
        if exists|q: Seq<(i32, i32)>| path_connects(*grid, start, goal, q) {
            let q = choose|q: Seq<(i32, i32)>| path_connects(*grid, start, goal, q);
            assert(q.len() > 0);
            assert forall|i: int|
                0 <= i < gsv@.len() && (#[trigger] gsv@[i]) < u32::MAX implies closed@[i] by {
                reveal(has_entry);
                if !closed@[i] {
                    assert(has_entry(open_list@, pt@[i]));
                }
            }
            lemma_route_settled(
                *grid,
                pt@,
                gsv@,
                closed@,
                si as int,
                start,
                goal,
                q,
                q.len() - 1,
            );
            assert(q[q.len() - 1] == goal);
            assert(closed@[gi as int]);
            assert(false);
        }
    }
    None
}

} // verus!
