//! The per-agent task scheduler: timer upkeep, task selection while
//! idle, path-following movement for active tasks, and yield accrual
//! once an agent stands on its work target.
use vstd::prelude::*;

use crate::components::{GridPosition, Task, TerrainType, Velocity, WorkState};
use crate::global_simulation::{cycle_bundle_spec, cycles_of, work_apply_spec};
use crate::pathfinding::{expand_path_spec, find_path, path_connects, simplify_path};
use crate::resources::{sat32, sat_add, sat_sub, GlobalInventory, StoredDwarf};
use crate::rng::{rng_range_i32, rng_ratio};
use crate::world::WorldGrid;
use vstd::arithmetic::div_mod::{lemma_fundamental_div_mod, lemma_fundamental_div_mod_converse};

verus! {

/// Game-time milliseconds an active gathering or mining task may run
/// before it is abandoned as stuck.
pub const TASK_TIMEOUT_MS: u32 = 120_000;

/// Game-time milliseconds a wander may run before it is abandoned.
pub const WANDER_TIMEOUT_MS: u32 = 10_000;

/// Milliseconds between periodic path recomputations.
pub const PATH_RECALC_MS: u32 = 5_000;

/// Base progress rate of gathering, in progress units per millisecond
/// per (terrain-multiplier tenth × richness hundredth): on a neutral
/// cell (multiplier 1.0, richness 1.0) gathering accrues 3000 units
/// per millisecond, one full unit of work per two game hours — the
/// same cycle length the offline simulator uses.
pub const GATHER_RATE: u64 = 3;

/// Base progress rate of mining: one unit per three game hours on a
/// neutral cell, again matching the offline cycle length.
pub const MINE_RATE: u64 = 2;

/// Progress units gained per millisecond while standing on the work
/// target: the task's base rate times the terrain multiplier (in
/// tenths) times the cell's resource richness (in hundredths).
pub open spec fn accrue_rate_spec(t: Option<Task>, mult: u32, rich: u32) -> int {
    match t {
        Some(Task::Gathering(_)) => GATHER_RATE * mult * rich,
        Some(Task::Mining(_)) => MINE_RATE * mult * rich,
        _ => 0,
    }
}

/// One tick of progress accrual: `step` units are added; on reaching
/// one full unit of work the progress resets to zero (and the tick's
/// completion is granted).
pub open spec fn accrue_progress(p: int, step: int) -> int {
    if p + step >= crate::PROGRESS_SCALE {
        0int
    } else {
        p + step
    }
}

/// Whether one tick of `step` units completes the unit of work.
pub open spec fn accrue_completes(p: int, step: int) -> bool {
    p + step >= crate::PROGRESS_SCALE
}

/// The (wood, stone, food, metal) bundle granted for one completed
/// unit of work: the task kind's per-cycle bundle — gathering two
/// wood and one food, mining two stone and one metal, the same
/// bundles the offline simulator grants per cycle — scaled by
/// `amount = ⌊multiplier × richness⌋` (both fixed point, so a neutral
/// cell gives amount 1).
pub open spec fn yield_bundle_spec(t: Option<Task>, mult: u32, rich: u32) -> (u32, u32, u32, u32) {
    let amount = sat32(mult * rich / 1000);
    match t {
        Some(Task::Gathering(_)) => (sat32(2 * amount), 0u32, amount, 0u32),
        Some(Task::Mining(_)) => (0u32, sat32(2 * amount), 0u32, amount),
        _ => (0u32, 0u32, 0u32, 0u32),
    }
}

/// Whether the agent's current task works the cell it stands on: a
/// gathering or mining task whose target is the agent's own cell.
pub open spec fn working_on_cell(st: WorkState, pos: GridPosition) -> bool {
    match st.current_task {
        Some(Task::Gathering(t)) => t == pos,
        Some(Task::Mining(t)) => t == pos,
        _ => false,
    }
}

/// What one accrual tick does to the scheduler state and the ledger.
pub open spec fn gathering_outcome(
    old_st: WorkState,
    new_st: WorkState,
    old_inv: GlobalInventory,
    new_inv: GlobalInventory,
    pos: GridPosition,
    grid: WorldGrid,
    dt_ms: u32,
) -> bool {
    if dt_ms == 0 || !working_on_cell(old_st, pos) {
        new_st == old_st && new_inv == old_inv
    } else {
        let task = old_st.current_task;
        let cell = grid.cell(pos.x as int, pos.y as int);
        let step = accrue_rate_spec(task, cell.terrain_type.resource_multiplier_spec(), cell.resource_richness) * dt_ms;
        if accrue_completes(old_st.work_progress as int, step) {
            &&& new_inv == old_inv.plus_bundle(
                yield_bundle_spec(
                    task,
                    cell.terrain_type.resource_multiplier_spec(),
                    cell.resource_richness,
                ),
            )
            &&& new_st == WorkState {
                work_progress: 0u64,
                current_task: Some(Task::Idle),
                task_cooldown: 500u32,
                task_duration: 0u32,
                ..old_st
            }
        } else {
            &&& new_inv == old_inv
            &&& new_st == WorkState {
                work_progress: accrue_progress(old_st.work_progress as int, step) as u64,
                ..old_st
            }
        }
    }
}

/// Yield accrual for one agent: standing on the target of its
/// gathering or mining task, the agent accrues progress from the
/// cell's terrain and richness; on crossing one full unit of work the
/// cell's yield bundle is added to the inventory, progress resets to
/// zero and the agent goes idle with a short cooldown. Anywhere else,
/// or with any other task, nothing changes.
pub fn resource_gathering_system(
    state: &mut WorkState,
    pos: &GridPosition,
    grid: &WorldGrid,
    inventory: &mut GlobalInventory,
    dt_ms: u32,
)
    requires
        grid.wf(),
        old(state).wf(),
        grid.in_bounds_spec(pos.x as int, pos.y as int),
    ensures
        final(state).wf(),
        gathering_outcome(
            *old(state),
            *final(state),
            *old(inventory),
            *final(inventory),
            *pos,
            *grid,
            dt_ms,
        ),
{
    if dt_ms == 0 {
        return ;
    }
    let (at_target, rate): (bool, u64) = match &state.current_task {
        Some(Task::Gathering(t)) => (t.x == pos.x && t.y == pos.y, GATHER_RATE),
        Some(Task::Mining(t)) => (t.x == pos.x && t.y == pos.y, MINE_RATE),
        _ => (false, 0),
    };
    if !at_target {
        return ;
    }
    let cell = match grid.cell_at(pos.x, pos.y) {
        Some(c) => c,
        None => {
            return ;
        },
    };
    let mult: u32 = cell.terrain_type.resource_multiplier();
    let rich: u32 = cell.resource_richness;
    proof {
        assert(mult <= 18);
        assert(rich <= 180);
        assert(rate * (mult as u64) <= 54) by (nonlinear_arith)
            requires rate <= 3 && mult <= 18
        ;
        assert(rate * (mult as u64) * (rich as u64) <= 9720) by (nonlinear_arith)
            requires rate * (mult as u64) <= 54 && rich <= 180
        ;
        assert(rate * (mult as u64) * (rich as u64) * (dt_ms as u64) <= 9720 * 0xffff_ffffu64)
            by (nonlinear_arith)
            requires rate * (mult as u64) * (rich as u64) <= 9720 && dt_ms <= u32::MAX
        ;
    }
    let step: u64 = rate * (mult as u64) * (rich as u64) * (dt_ms as u64);
    if (state.work_progress as u64).saturating_add(step) >= crate::PROGRESS_SCALE {
        let bundle_amount: u32 = mult * rich / 1000;
        let bundle: (u32, u32, u32, u32) = match &state.current_task {
            Some(Task::Gathering(_)) => (2 * bundle_amount, 0, bundle_amount, 0),
            Some(Task::Mining(_)) => (0, 2 * bundle_amount, 0, bundle_amount),
            _ => (0, 0, 0, 0),
        };
        inventory.add_bundle(bundle);
        state.work_progress = 0;
        state.current_task = Some(Task::Idle);
        state.task_cooldown = 500;
        state.task_duration = 0;
    } else {
        state.work_progress = state.work_progress + step;
    }
}

/// Work progress left after `n` uniform ticks, each adding `step`
/// progress units, starting from `p0` (a completed unit resets the
/// progress to zero).
pub open spec fn ticks_progress(p0: int, step: int, n: nat) -> int
    decreases n,
{
    if n == 0 {
        p0
    } else {
        accrue_progress(ticks_progress(p0, step, (n - 1) as nat), step)
    }
}

/// Work units completed during `n` such ticks.
pub open spec fn ticks_grants(p0: int, step: int, n: nat) -> int
    decreases n,
{
    if n == 0 {
        0int
    } else {
        ticks_grants(p0, step, (n - 1) as nat) + (if accrue_completes(
            ticks_progress(p0, step, (n - 1) as nat),
            step,
        ) {
            1int
        } else {
            0int
        })
    }
}

/// When the per-tick step divides the progress scale, accrual loses
/// nothing: after `n` ticks from zero the completions and the left
/// over progress are exactly the quotient and remainder of the total
/// accrued progress.
proof fn lemma_ticks_exact(step: int, n: nat)
    requires
        0 < step,
        (crate::PROGRESS_SCALE as int) % step == 0,
    ensures
        ticks_progress(0, step, n) == (n * step) % (crate::PROGRESS_SCALE as int),
        ticks_grants(0, step, n) == (n * step) / (crate::PROGRESS_SCALE as int),
    decreases n,
{
    let scale = crate::PROGRESS_SCALE as int;
    if n == 0 {
        assert(n * step == 0) by (nonlinear_arith)
            requires n == 0
        ;
    } else {
        let m = (n - 1) as nat;
        lemma_ticks_exact(step, m);
        let prev_p = ticks_progress(0, step, m);
        let q = (m * step) / scale;
        lemma_fundamental_div_mod(m * step, scale);
        // The progress so far is a multiple of the step size.
        let k = scale / step;
        lemma_fundamental_div_mod(scale, step);
        assert(scale == k * step);
        assert(prev_p == (m - q * k) * step) by (nonlinear_arith)
            requires
                prev_p == m * step - scale * q,
                scale == k * step,
        ;
        let t = m - q * k;
        assert(n * step == m * step + step) by (nonlinear_arith)
            requires n == m + 1
        ;
        if prev_p + step >= scale {
            // A multiple of the step below the scale that crosses it
            // when the step is added must be exactly scale - step.
            assert(t * step == prev_p);
            assert((t + 1) * step == t * step + step) by (nonlinear_arith);
            assert(t * step + step >= k * step);
            assert(t * step < k * step);
            assert(t + 1 >= k) by (nonlinear_arith)
                requires
                    (t + 1) * step >= k * step,
                    0 < step,
            ;
            assert(t < k) by (nonlinear_arith)
                requires
                    t * step < k * step,
                    0 < step,
            ;
            assert(t == k - 1);
            assert(prev_p + step == scale) by (nonlinear_arith)
                requires
                    prev_p == t * step,
                    scale == k * step,
                    t == k - 1,
            ;
            assert(n * step == (q + 1) * scale + 0) by (nonlinear_arith)
                requires
                    n * step == m * step + step,
                    m * step == scale * q + prev_p,
                    prev_p + step == scale,
            ;
            lemma_fundamental_div_mod_converse(n * step, scale, q + 1, 0);
        } else {
            assert(n * step == q * scale + (prev_p + step)) by (nonlinear_arith)
                requires
                    n * step == m * step + step,
                    m * step == scale * q + prev_p,
            ;
            lemma_fundamental_div_mod_converse(n * step, scale, q, prev_p + step);
        }
    }
}

/// Foreground and offline simulation converge (to cycle granularity,
/// and here exactly): for a gathering agent standing on a neutral
/// cell (terrain multiplier 1.0, richness 1.0, so the accrual step is
/// 3000·dt), any uniform tick sequence totalling `hours` whole game
/// hours completes exactly as many units of work as one offline
/// catch-up over `hours` grants cycles, leaves exactly the progress
/// the catch-up folds back, and each foreground completion grants the
/// same (wood, stone, food, metal) bundle as one offline cycle.
pub proof fn lemma_catch_up_convergence(
    s: StoredDwarf,
    target: GridPosition,
    dt: int,
    n: nat,
    hours: u32,
)
    requires
        s.current_task == Some(Task::Gathering(target)),
        s.work_progress == 0,
        0 < dt,
        (crate::PROGRESS_SCALE as int) % (3000 * dt) == 0,
        n * dt == hours * (crate::MS_PER_HOUR as int),
    ensures
        ticks_grants(0, 3000 * dt, n) == cycles_of(s.current_task, hours),
        ticks_progress(0, 3000 * dt, n) == work_apply_spec(s, hours).work_progress,
        yield_bundle_spec(s.current_task, 10, 100) == cycle_bundle_spec(s.current_task, 1),
{
    let step = 3000 * dt;
    let scale = crate::PROGRESS_SCALE as int;
    assert(0 < step) by (nonlinear_arith)
        requires 0 < dt && step == 3000 * dt
    ;
    lemma_ticks_exact(step, n);
    assert(n * step == hours * 30_000_000) by (nonlinear_arith)
        requires
            step == 3000 * dt,
            n * dt == hours * 10_000,
    ;
    let q = (hours as int) / 2;
    let r = (hours as int) % 2;
    lemma_fundamental_div_mod(hours as int, 2);
    assert(hours * 30_000_000 == q * scale + r * 30_000_000) by (nonlinear_arith)
        requires
            hours == 2 * q + r,
            scale == 60_000_000,
    ;
    assert(0 <= r < 2);
    lemma_fundamental_div_mod_converse(hours * 30_000_000, scale, q, r * 30_000_000);
    assert(ticks_grants(0, step, n) == q);
    assert(ticks_progress(0, step, n) == r * 30_000_000);
    assert(cycles_of(s.current_task, hours) == (hours as u64) / 2);
    assert((hours as u64) / 2 == q);
    if hours == 0 {
        assert(work_apply_spec(s, hours).work_progress == 0);
    } else {
        assert(work_apply_spec(s, hours).work_progress == ((hours as int) % 2) * scale / 2);
        assert(r * scale / 2 == r * 30_000_000) by (nonlinear_arith)
            requires 0 <= r < 2 && scale == 60_000_000
        ;
    }
}

/// A route to `b` exists from `a` on the grid.
pub open spec fn reachable(grid: WorldGrid, a: (i32, i32), b: (i32, i32)) -> bool {
    exists|p: Seq<(i32, i32)>| path_connects(grid, a, b, p)
}

/// The scheduler state after only the tick's timer upkeep: the
/// recalculation and duration timers accumulate the tick, the
/// cooldown drains by it.
pub open spec fn tick_timers(o: WorkState, dt: u32) -> WorkState {
    WorkState {
        path_recalc_timer: sat_add(o.path_recalc_timer, dt),
        task_cooldown: sat_sub(o.task_cooldown, dt),
        task_duration: sat_add(o.task_duration, dt),
        ..o
    }
}

/// How the cached path may change while a task continues: untouched
/// with the waypoint index only moving forward, dropped (forcing a
/// future recomputation), or freshly recomputed — in which case its
/// re-expansion is a walkable route from the agent to the target.
pub open spec fn cache_evolves(
    o: WorkState,
    n: WorkState,
    pos: GridPosition,
    target: GridPosition,
    grid: WorldGrid,
) -> bool {
    ||| (n.cached_path@ == o.cached_path@ && o.path_index <= n.path_index && n.path_index
        <= n.cached_path@.len())
    ||| n.cached_path@.len() == 0
    ||| (path_connects(grid, (pos.x, pos.y), (target.x, target.y), expand_path_spec(n.cached_path@))
        && n.path_index == 0)
}

/// Whether this tick must recompute the cached path: it is missing,
/// exhausted, or stale past the periodic re-plan interval.
pub open spec fn replan_due(o: WorkState) -> bool {
    ||| o.cached_path@.len() == 0
    ||| o.path_index >= o.cached_path@.len()
    ||| o.path_recalc_timer > PATH_RECALC_MS
}

/// What one tick may do to an agent moving toward `target` (a wander,
/// or the travel leg of gathering or mining, where `arrive_idle`
/// distinguishes the two): the task either continues — progress,
/// duration and cooldown untouched, the cache evolving soundly, the
/// emitted intent a unit step — or is abandoned to idle with the
/// cache dropped, progress and duration reset, and the agent halted.
/// A task past its timeout is always abandoned (cooldown 1000 ms); an
/// agent on its target ends a wander (cooldown 1000 ms) and otherwise
/// halts with its cache cleared, handing control to yield accrual;
/// and when a re-plan is due but no route to the target exists at
/// all, the task is always abandoned, with `nopath_cooldown` set.
pub open spec fn move_outcome(
    o: WorkState,
    n: WorkState,
    vo: Velocity,
    vn: Velocity,
    pos: GridPosition,
    target: GridPosition,
    grid: WorldGrid,
    timeout_ms: u32,
    nopath_cooldown: u32,
    arrive_idle: bool,
) -> bool {
    let arrived = pos == target;
    let timed_out = o.task_duration > timeout_ms;
    &&& (n.current_task == o.current_task || n.current_task == Some(Task::Idle))
    &&& (n.current_task != o.current_task ==> {
        &&& n.current_task == Some(Task::Idle)
        &&& n.work_progress == 0
        &&& n.cached_path@.len() == 0
        &&& n.path_index == 0
        &&& n.task_duration == 0
        &&& vn == (Velocity { x: 0, y: 0 })
    })
    &&& (timed_out ==> n.current_task == Some(Task::Idle) && n.task_cooldown == 1000)
    &&& (!timed_out && arrived && arrive_idle ==> n.current_task == Some(Task::Idle)
        && n.task_cooldown == 1000)
    &&& (!timed_out && arrived && !arrive_idle ==> {
        &&& n.current_task == o.current_task
        &&& vn == (Velocity { x: 0, y: 0 })
        &&& n.cached_path@.len() == 0
        &&& n.path_index == 0
    })
    &&& (!timed_out && !arrived && replan_due(o) && !reachable(
        grid,
        (pos.x, pos.y),
        (target.x, target.y),
    ) ==> n.current_task == Some(Task::Idle) && n.task_cooldown == nopath_cooldown)
    &&& (n.current_task == o.current_task ==> {
        &&& n.work_progress == o.work_progress
        &&& n.task_duration == o.task_duration
        &&& n.task_cooldown == o.task_cooldown
        &&& cache_evolves(o, n, pos, target, grid)
        &&& (vn.is_unit_intent() || vn == vo)
    })
}

/// What taking up new work establishes: the target is walkable,
/// within the bounded work-search radius, and reachable from the
/// agent's cell; the path cache is cleared for the new task, and
/// duration and progress start from zero.
pub open spec fn new_task_ok(grid: WorldGrid, pos: GridPosition, t: GridPosition, n: WorkState) -> bool {
    &&& grid.walkable_at(t.x as int, t.y as int)
    &&& within_work_radius(pos, t)
    &&& reachable(grid, (pos.x, pos.y), (t.x, t.y))
    &&& n.cached_path@.len() == 0
    &&& n.path_index == 0
    &&& n.task_duration == 0
    &&& n.task_cooldown == 1000
    &&& n.work_progress == 0
}

/// What one tick may do to an idle agent: while the cooldown runs,
/// nothing. Once cooled it may stay idle, take up gathering on a tree
/// or grass cell or mining on a stone cell — only a walkable target a
/// path was actually found to — or start wandering to a nearby
/// walkable cell. It never assigns the reserved building task.
pub open spec fn idle_outcome(
    o: WorkState,
    n: WorkState,
    pos: GridPosition,
    grid: WorldGrid,
) -> bool {
    &&& (o.task_cooldown > 0 ==> n == o)
    &&& match n.current_task {
        Some(Task::Idle) => n.work_progress == o.work_progress && n.cached_path@
            == o.cached_path@ && n.path_index == o.path_index,
        Some(Task::Gathering(t)) => {
            &&& new_task_ok(grid, pos, t, n)
            &&& (grid.cell(t.x as int, t.y as int).terrain_type is Tree || grid.cell(
                t.x as int,
                t.y as int,
            ).terrain_type is Grass)
        },
        Some(Task::Mining(t)) => {
            &&& new_task_ok(grid, pos, t, n)
            &&& grid.cell(t.x as int, t.y as int).terrain_type is Stone
        },
        Some(Task::Wandering(t)) => {
            &&& grid.walkable_at(t.x as int, t.y as int)
            &&& crate::pathfinding::iabs(t.x - pos.x) <= 8
            &&& crate::pathfinding::iabs(t.y - pos.y) <= 8
            &&& n.cached_path@.len() == 0
            &&& n.path_index == 0
            &&& n.task_duration == 0
            &&& n.task_cooldown == 3000
            &&& n.work_progress == 0
        },
        _ => false,
    }
}

/// The full transition relation of one scheduler tick, taken from the
/// state after timer upkeep.
pub open spec fn work_transition(
    o: WorkState,
    n: WorkState,
    vo: Velocity,
    vn: Velocity,
    pos: GridPosition,
    grid: WorldGrid,
) -> bool {
    match o.current_task {
        Some(Task::Idle) => idle_outcome(o, n, pos, grid) && vn == vo,
        Some(Task::Wandering(t)) => move_outcome(
            o,
            n,
            vo,
            vn,
            pos,
            t,
            grid,
            WANDER_TIMEOUT_MS,
            1000,
            true,
        ),
        Some(Task::Gathering(t)) => move_outcome(
            o,
            n,
            vo,
            vn,
            pos,
            t,
            grid,
            TASK_TIMEOUT_MS,
            500,
            false,
        ),
        Some(Task::Mining(t)) => move_outcome(
            o,
            n,
            vo,
            vn,
            pos,
            t,
            grid,
            TASK_TIMEOUT_MS,
            500,
            false,
        ),
        _ => n == o && vn == (Velocity { x: 0, y: 0 }),
    }
}

/// The unit direction an agent is told to move to close the offset
/// (dx, dy): one step along the dominant axis (ties go to the x
/// axis), so the intent is always 4-connected and axis-aligned
/// offsets — the only ones a cached route produces — give exact unit
/// steps.
fn unit_dir(dx: i64, dy: i64) -> (v: (i32, i32))
    requires
        -0x1_0000_0000 <= dx <= 0x1_0000_0000,
        -0x1_0000_0000 <= dy <= 0x1_0000_0000,
    ensures
        -1 <= v.0 <= 1,
        -1 <= v.1 <= 1,
        v.0 == 0 || v.1 == 0,
        dx == 0 && dy == 0 ==> v == (0i32, 0i32),
        dy == 0 && dx > 0 ==> v == (1i32, 0i32),
        dy == 0 && dx < 0 ==> v == (-1i32, 0i32),
        dx == 0 && dy > 0 ==> v == (0i32, 1i32),
        dx == 0 && dy < 0 ==> v == (0i32, -1i32),
{
    if dx == 0 && dy == 0 {
        return (0, 0);
    }
    let ax: i64 = if dx >= 0 { dx } else { -dx };
    let ay: i64 = if dy >= 0 { dy } else { -dy };
    if ax >= ay {
        if dx > 0 { (1, 0) } else { (-1, 0) }
    } else {
        if dy > 0 { (0, 1) } else { (0, -1) }
    }
}

/// One work-target candidate found near an idle agent.
#[derive(Clone, Copy, Debug)]
pub(crate) struct Candidate {
    pub x: i32,
    pub y: i32,
    pub kind: TerrainType,
    pub score: u64,
}

/// The candidate names a walkable cell within the work-search radius
/// of the agent and carries its terrain kind.
pub(crate) open spec fn candidate_ok(c: Candidate, grid: WorldGrid, pos: GridPosition) -> bool {
    &&& grid.walkable_at(c.x as int, c.y as int)
    &&& c.kind == grid.cell(c.x as int, c.y as int).terrain_type
    &&& grid.cell(c.x as int, c.y as int).wf()
    &&& within_work_radius(pos, GridPosition { x: c.x, y: c.y })
}

/// Whether `t` lies within the idle work scan's 20-cell Euclidean
/// radius of the agent.
pub open spec fn within_work_radius(pos: GridPosition, t: GridPosition) -> bool {
    (t.x - pos.x) * (t.x - pos.x) + (t.y - pos.y) * (t.y - pos.y) <= 400
}

/// Work-priority score of a terrain kind, in tenths: trees first,
/// then stone, mountains, grass, water last.
fn terrain_score(kind: &TerrainType) -> (s: u64)
    ensures
        5 <= s <= 30,
{
    match kind {
        TerrainType::Tree => 30,
        TerrainType::Stone => 25,
        TerrainType::Mountain => 20,
        TerrainType::Grass => 15,
        TerrainType::Water => 5,
    }
}

/// Integer square root by linear scan, for the small distance values
/// candidate scoring uses.
fn isqrt(v: u64) -> (r: u64)
    requires
        v <= 4_000_000,
    ensures
        r * r <= v,
        (r + 1) * (r + 1) > v,
        r <= 2000,
{
    let mut r: u64 = 0;
    let mut done = false;
    while !done
        invariant
            v <= 4_000_000,
            r * r <= v,
            r <= 2000,
            done ==> (r + 1) * (r + 1) > v,
        decreases 2001 - r, (if done { 0int } else { 1int }),
    {
        proof {
            assert((r + 1) * (r + 1) <= 2001 * 2001) by (nonlinear_arith)
                requires r <= 2000
            ;
        }
        let sq: u64 = (r + 1) * (r + 1);
        if sq <= v {
            r = r + 1;
            proof {
                assert(r <= 2000) by (nonlinear_arith)
                    requires r * r <= 4_000_000 && r >= 1
                ;
            }
        } else {
            done = true;
        }
    }
    r
}

/// Scans the grid for walkable cells within the work-search radius of
/// the agent and scores each as terrain score times richness over
/// (distance + 1), in fixed point.
fn collect_candidates(pos: &GridPosition, grid: &WorldGrid) -> (v: Vec<Candidate>)
    requires
        grid.wf(),
        grid.in_bounds_spec(pos.x as int, pos.y as int),
    ensures
        forall|k: int| 0 <= k < v@.len() ==> candidate_ok(#[trigger] v@[k], *grid, *pos),
        v@.len() <= grid.width * grid.height,
{
    let w = grid.width;
    let h = grid.height;
    let mut v: Vec<Candidate> = Vec::new();
    let mut yy: i32 = 0;
    while yy < h
        invariant
            grid.wf(),
            grid.in_bounds_spec(pos.x as int, pos.y as int),
            w == grid.width,
            h == grid.height,
            0 <= yy <= h,
            forall|k: int| 0 <= k < v@.len() ==> candidate_ok(#[trigger] v@[k], *grid, *pos),
            v@.len() <= yy * w,
        decreases h - yy,
    {
        let mut xx: i32 = 0;
        while xx < w
            invariant
                grid.wf(),
                grid.in_bounds_spec(pos.x as int, pos.y as int),
                w == grid.width,
                h == grid.height,
                0 <= yy < h,
                0 <= xx <= w,
                forall|k: int| 0 <= k < v@.len() ==> candidate_ok(#[trigger] v@[k], *grid, *pos),
                v@.len() <= yy * w + xx,
            decreases w - xx,
        {
            match grid.cell_at(xx, yy) {
                Some(cell) => {
                    if cell.walkable {
                        let dx: i64 = (xx as i64) - (pos.x as i64);
                        let dy: i64 = (yy as i64) - (pos.y as i64);
                        proof {
                            assert(0 <= dx * dx <= 0x1_0000_0000_0000 && 0 <= dy * dy
                                <= 0x1_0000_0000_0000) by (nonlinear_arith)
                                requires -0x1_0000_00 <= dx <= 0x1_0000_00 && -0x1_0000_00 <= dy
                                    <= 0x1_0000_00
                            ;
                        }
                        let dist2: i64 = dx * dx + dy * dy;
                        if dist2 <= 400 {
                            let dist_c: u64 = isqrt(10_000 * (dist2 as u64));
                            let ts: u64 = terrain_score(&cell.terrain_type);
                            proof {
                                assert(ts * (cell.resource_richness as u64) <= 5400)
                                    by (nonlinear_arith)
                                    requires ts <= 30 && cell.resource_richness <= 180
                                ;
                            }
                            let score: u64 = ts * (cell.resource_richness as u64) * 100 / (
                            dist_c + 100);
                            v.push(
                                Candidate { x: xx, y: yy, kind: cell.terrain_type, score },
                            );
                        }
                    }
                },
                None => {},
            }
            xx = xx + 1;
        }
        proof {
            assert((yy + 1) * w == yy * w + w) by (nonlinear_arith);
        }
        yy = yy + 1;
    }
    proof {
        assert(h * w == w * h) by (nonlinear_arith);
    }
    v
}

/// Sorts the candidates by score, best first (selection sort).
fn sort_candidates(v: &mut Vec<Candidate>, grid: &WorldGrid, pos: &GridPosition)
    requires
        forall|k: int| 0 <= k < old(v)@.len() ==> candidate_ok(#[trigger] old(v)@[k], *grid, *pos),
    ensures
        final(v)@.len() == old(v)@.len(),
        forall|k: int| 0 <= k < final(v)@.len() ==> candidate_ok(#[trigger] final(v)@[k], *grid, *pos),
        forall|a: int, b: int| 0 <= a < b < final(v)@.len() ==> final(v)@[a].score
            >= final(v)@[b].score,
{
    let len = v.len();
    let mut i: usize = 0;
    while i < len
        invariant
            len == v@.len(),
            i <= len,
            forall|k: int| 0 <= k < v@.len() ==> candidate_ok(#[trigger] v@[k], *grid, *pos),
            forall|a: int, b: int| 0 <= a < b < i ==> v@[a].score >= v@[b].score,
            forall|a: int, b: int| 0 <= a < i && i <= b < len ==> v@[a].score >= v@[b].score,
        decreases len - i,
    {
        let mut m: usize = i;
        let mut j: usize = i + 1;
        while j < len
            invariant
                len == v@.len(),
                i <= m < len,
                i < j <= len,
                forall|k: int| i <= k < j ==> v@[m as int].score >= v@[k].score,
            decreases len - j,
        {
            if v[j].score > v[m].score {
                m = j;
            }
            j = j + 1;
        }
        let a = v[i];
        let b = v[m];
        v[i] = b;
        v[m] = a;
        i = i + 1;
    }
}

/// The travel leg shared by wandering, gathering and mining: abandon
/// a timed-out task, stop on arrival (ending a wander entirely),
/// otherwise recompute the cached path when it is missing, exhausted
/// or stale — abandoning the task when no route exists — check the
/// next waypoint is still walkable when asked to, and emit a unit
/// movement intent toward it.
fn move_along(
    state: &mut WorkState,
    pos: &GridPosition,
    velocity: &mut Velocity,
    grid: &WorldGrid,
    target: GridPosition,
    timeout_ms: u32,
    nopath_cooldown: u32,
    arrive_idle: bool,
    check_waypoint: bool,
)
    requires
        grid.wf(),
        old(state).wf(),
        grid.in_bounds_spec(pos.x as int, pos.y as int),
        old(state).current_task != Some(Task::Idle),
    ensures
        final(state).wf(),
        move_outcome(
            *old(state),
            *final(state),
            *old(velocity),
            *final(velocity),
            *pos,
            target,
            *grid,
            timeout_ms,
            nopath_cooldown,
            arrive_idle,
        ),
{
    if state.task_duration > timeout_ms {
        velocity.x = 0;
        velocity.y = 0;
        state.current_task = Some(Task::Idle);
        state.cached_path = Vec::new();
        state.path_index = 0;
        state.task_cooldown = 1000;
        state.task_duration = 0;
        state.work_progress = 0;
        return ;
    }
    if pos.x == target.x && pos.y == target.y {
        velocity.x = 0;
        velocity.y = 0;
        if arrive_idle {
            state.current_task = Some(Task::Idle);
            state.cached_path = Vec::new();
            state.path_index = 0;
            state.task_cooldown = 1000;
            state.task_duration = 0;
            state.work_progress = 0;
        } else {
            state.cached_path = Vec::new();
            state.path_index = 0;
        }
        return ;
    }
    let need_recalc = state.cached_path.len() == 0 || state.path_index >= state.cached_path.len()
        || state.path_recalc_timer > PATH_RECALC_MS;
    if need_recalc {
        match find_path((pos.x, pos.y), (target.x, target.y), grid) {
            Some(p) => {
                proof {
                    assert(path_connects(*grid, (pos.x, pos.y), (target.x, target.y), p@));
                    assert(reachable(*grid, (pos.x, pos.y), (target.x, target.y)));
                }
                let s = simplify_path(p);
                state.cached_path = s;
                state.path_index = 0;
                state.path_recalc_timer = 0;
            },
            None => {
                velocity.x = 0;
                velocity.y = 0;
                state.current_task = Some(Task::Idle);
                state.cached_path = Vec::new();
                state.path_index = 0;
                state.task_cooldown = nopath_cooldown;
                state.task_duration = 0;
                state.work_progress = 0;
                return ;
            },
        }
    }
    if state.cached_path.len() > 0 && state.path_index < state.cached_path.len() {
        let wp = state.cached_path[state.path_index];
        if check_waypoint && !grid.is_walkable(wp.0, wp.1) {
            // A waypoint became unwalkable mid-transit: drop the
            // cache and force a recomputation next tick.
            state.cached_path = Vec::new();
            state.path_index = 0;
            state.path_recalc_timer = 999_000;
            return ;
        }
        let dx: i64 = (wp.0 as i64) - (pos.x as i64);
        let dy: i64 = (wp.1 as i64) - (pos.y as i64);
        if dx == 0 && dy == 0 {
            state.path_index = state.path_index + 1;
            if state.path_index < state.cached_path.len() {
                let nxt = state.cached_path[state.path_index];
                let d = unit_dir((nxt.0 as i64) - (pos.x as i64), (nxt.1 as i64) - (pos.y as i64));
                velocity.x = d.0;
                velocity.y = d.1;
            } else {
                state.cached_path = Vec::new();
                state.path_index = 0;
            }
        } else {
            let d = unit_dir(dx, dy);
            velocity.x = d.0;
            velocity.y = d.1;
        }
    } else {
        velocity.x = 0;
        velocity.y = 0;
    }
}

/// One scheduler tick for one agent: timers are brought up to date,
/// then the current task decides — an idle agent may take up new
/// work (a random choice, with every candidate target validated by a
/// real path query) or start wandering; a moving agent follows its
/// cached path toward its target, re-planning when the cache is
/// missing, exhausted, stale or blocked, and abandoning unreachable
/// or timed-out tasks back to idle. The emitted velocity is the unit
/// movement intent for the motion integrator. Yield accrual is not
/// done here but in `resource_gathering_system`, after movement. A
/// zero-length tick (a paused game) changes nothing.
pub fn dwarf_work_system(
    state: &mut WorkState,
    pos: &GridPosition,
    velocity: &mut Velocity,
    grid: &WorldGrid,
    dt_ms: u32,
)
    requires
        grid.wf(),
        old(state).wf(),
        grid.in_bounds_spec(pos.x as int, pos.y as int),
    ensures
        final(state).wf(),
        dt_ms == 0 ==> *final(state) == *old(state) && *final(velocity) == *old(velocity),
        dt_ms > 0 ==> work_transition(
            tick_timers(*old(state), dt_ms),
            *final(state),
            *old(velocity),
            *final(velocity),
            *pos,
            *grid,
        ),
{
    if dt_ms == 0 {
        return ;
    }
    state.path_recalc_timer = state.path_recalc_timer.saturating_add(dt_ms);
    state.task_cooldown = state.task_cooldown.saturating_sub(dt_ms);
    state.task_duration = state.task_duration.saturating_add(dt_ms);

    let task = state.current_task;
    match task {
        Some(Task::Idle) => {
            if state.task_cooldown == 0 {
                let should_work = rng_ratio(3, 10);
                let mut found = false;
                if should_work {
                    let mut candidates = collect_candidates(pos, grid);
                    proof {
                        assert(grid.width * grid.height <= 4096 * 4096) by (nonlinear_arith)
                            requires 0 < grid.width <= 4096 && 0 < grid.height <= 4096
                        ;
                    }
                    if candidates.len() > 0 {
                        sort_candidates(&mut candidates, grid, pos);
                        let third: usize = candidates.len() / 3;
                        let top_count: usize = if third > 1 {
                            third
                        } else {
                            1
                        };
                        let max_attempts: usize = if top_count < 5 {
                            top_count
                        } else {
                            5
                        };
                        let mut attempt: usize = 0;
                        while attempt < max_attempts && !found
                            invariant
                                grid.wf(),
                                grid.in_bounds_spec(pos.x as int, pos.y as int),
                                candidates@.len() > 0,
                                candidates@.len() <= 0x1000000,
                                1 <= top_count <= candidates@.len(),
                                tick_timers(*old(state), dt_ms).task_cooldown == 0,
                                forall|k: int| 0 <= k < candidates@.len() ==> candidate_ok(
                                    #[trigger] candidates@[k],
                                    *grid,
                                    *pos,
                                ),
                                !found ==> *state == tick_timers(*old(state), dt_ms),
                                state.wf(),
                                found ==> idle_outcome(
                                    tick_timers(*old(state), dt_ms),
                                    *state,
                                    *pos,
                                    *grid,
                                ),
                                found ==> !(state.current_task matches Some(Task::Idle)),
                            decreases max_attempts - attempt,
                        {
                            let chosen_idx: usize = if attempt == 0 {
                                rng_range_i32(0, top_count as i32) as usize
                            } else {
                                rng_range_i32(0, candidates.len() as i32) as usize
                            };
                            let cand = candidates[chosen_idx];
                            match find_path((pos.x, pos.y), (cand.x, cand.y), grid) {
                                Some(path) => {
                                    proof {
                                        assert(path_connects(
                                            *grid,
                                            (pos.x, pos.y),
                                            (cand.x, cand.y),
                                            path@,
                                        ));
                                    }
                                    let target = GridPosition { x: cand.x, y: cand.y };
                                    let new_task = match cand.kind {
                                        TerrainType::Tree => Task::Gathering(target),
                                        TerrainType::Grass => Task::Gathering(target),
                                        TerrainType::Stone => Task::Mining(target),
                                        TerrainType::Mountain => Task::Mining(target),
                                        TerrainType::Water => Task::Gathering(target),
                                    };
                                    state.current_task = Some(new_task);
                                    state.cached_path = Vec::new();
                                    state.path_index = 0;
                                    state.task_cooldown = 1000;
                                    state.task_duration = 0;
                                    state.work_progress = 0;
                                    found = true;
                                },
                                None => {},
                            }
                            attempt = attempt + 1;
                        }
                        if !found {
                            state.task_cooldown = 2000;
                        }
                    }
                }
                let still_idle = match &state.current_task {
                    Some(Task::Idle) => true,
                    _ => false,
                };
                if still_idle {
                    let wander_distance = rng_range_i32(5, 9);
                    let ox = rng_range_i32(-wander_distance, wander_distance + 1);
                    let oy = rng_range_i32(-wander_distance, wander_distance + 1);
                    let tx0 = pos.x + ox;
                    let ty0 = pos.y + oy;
                    let target_x: i32 = if tx0 < 0 {
                        0
                    } else if tx0 > grid.width - 1 {
                        grid.width - 1
                    } else {
                        tx0
                    };
                    let target_y: i32 = if ty0 < 0 {
                        0
                    } else if ty0 > grid.height - 1 {
                        grid.height - 1
                    } else {
                        ty0
                    };
                    if grid.is_walkable(target_x, target_y) {
                        state.current_task = Some(
                            Task::Wandering(GridPosition { x: target_x, y: target_y }),
                        );
                        state.cached_path = Vec::new();
                        state.path_index = 0;
                        state.task_cooldown = 3000;
                        state.task_duration = 0;
                        state.work_progress = 0;
                    }
                }
            }
        },
        Some(Task::Wandering(target)) => {
            move_along(
                state,
                pos,
                velocity,
                grid,
                target,
                WANDER_TIMEOUT_MS,
                1000,
                true,
                false,
            );
        },
        Some(Task::Gathering(target)) => {
            move_along(
                state,
                pos,
                velocity,
                grid,
                target,
                TASK_TIMEOUT_MS,
                500,
                false,
                true,
            );
        },
        Some(Task::Mining(target)) => {
            move_along(state, pos, velocity, grid, target, TASK_TIMEOUT_MS, 500, false, true);
        },
        _ => {
            velocity.x = 0;
            velocity.y = 0;
        },
    }
}

} // verus!
