use colony_core::components::{GridPosition, Task, TerrainType, Velocity, WorkState};
use colony_core::resources::GlobalInventory;
use colony_core::work::{dwarf_work_system, resource_gathering_system};
use colony_core::world::WorldGrid;
use colony_core::PROGRESS_SCALE;

fn inventory_zero() -> GlobalInventory {
    GlobalInventory { stone: 0, wood: 0, food: 0, metal: 0 }
}

fn still() -> Velocity {
    Velocity { x: 0, y: 0 }
}

/// Gathering cycle on a tree cell at richness 1.0: progress accrues at
/// the tree rate, stays below one full unit until the crossing tick,
/// then the tree bundle lands in the inventory and the agent idles.
#[test]
fn gathering_cycle_on_tree_yields_wood_and_food() {
    let mut grid = WorldGrid::new(6, 6);
    grid.set_cell(2, 2, TerrainType::Tree, 100);
    let pos = GridPosition { x: 2, y: 2 };
    let mut state = WorkState::new_idle();
    state.current_task = Some(Task::Gathering(GridPosition { x: 2, y: 2 }));
    let mut inv = inventory_zero();

    // Tree rate: 3 (gathering) * 15 (tree multiplier) * 100 (richness)
    // = 4500 progress units per millisecond.
    let mut ticks = 0u32;
    loop {
        resource_gathering_system(&mut state, &pos, &grid, &mut inv, 1000);
        ticks += 1;
        assert!(state.work_progress < PROGRESS_SCALE);
        if state.current_task == Some(Task::Idle) {
            break;
        }
        assert_eq!(state.work_progress, 4_500_000u64 * ticks as u64);
        assert!(ticks < 100, "gathering never completed");
    }
    // 60_000_000 / 4_500_000 = 13.33 ticks: completes on the 14th.
    assert_eq!(ticks, 14);
    assert_eq!(inv.wood, 2);
    assert_eq!(inv.food, 1);
    assert_eq!(inv.stone, 0);
    assert_eq!(inv.metal, 0);
    assert_eq!(state.work_progress, 0);
    assert_eq!(state.current_task, Some(Task::Idle));
}

/// Mining grants stone and metal, scaled by the cell.
#[test]
fn mining_cycle_on_stone_yields_stone_and_metal() {
    let mut grid = WorldGrid::new(6, 6);
    grid.set_cell(1, 1, TerrainType::Stone, 150);
    let pos = GridPosition { x: 1, y: 1 };
    let mut state = WorkState::new_idle();
    state.current_task = Some(Task::Mining(GridPosition { x: 1, y: 1 }));
    let mut inv = inventory_zero();

    // Stone at richness 1.5: amount = 12 * 150 / 1000 = 1.
    let mut guard = 0;
    while state.current_task != Some(Task::Idle) {
        resource_gathering_system(&mut state, &pos, &grid, &mut inv, 5000);
        guard += 1;
        assert!(guard < 100);
    }
    assert_eq!(inv.stone, 2);
    assert_eq!(inv.metal, 1);
    assert_eq!(inv.wood, 0);
    assert_eq!(inv.food, 0);
}

/// No accrual away from the target, under other tasks, or on a paused
/// tick.
#[test]
fn no_accrual_off_target_or_paused() {
    let grid = WorldGrid::new(6, 6);
    let mut inv = inventory_zero();

    let mut state = WorkState::new_idle();
    state.current_task = Some(Task::Gathering(GridPosition { x: 3, y: 3 }));
    let away = GridPosition { x: 1, y: 1 };
    resource_gathering_system(&mut state, &away, &grid, &mut inv, 1000);
    assert_eq!(state.work_progress, 0);

    let at = GridPosition { x: 3, y: 3 };
    resource_gathering_system(&mut state, &at, &grid, &mut inv, 0);
    assert_eq!(state.work_progress, 0);

    state.current_task = Some(Task::Wandering(GridPosition { x: 3, y: 3 }));
    resource_gathering_system(&mut state, &at, &grid, &mut inv, 1000);
    assert_eq!(state.work_progress, 0);
    assert_eq!(inv, inventory_zero());
}

/// An unreachable mining target is abandoned on the tick that tries to
/// plan a path to it: the agent returns to idle with an empty cache.
#[test]
fn unreachable_mining_target_abandoned_in_one_tick() {
    let mut grid = WorldGrid::new(9, 9);
    grid.set_cell(5, 5, TerrainType::Stone, 100);
    for (x, y) in [(4, 5), (6, 5), (5, 4), (5, 6)] {
        grid.set_cell(x, y, TerrainType::Water, 100);
    }
    let pos = GridPosition { x: 1, y: 1 };
    let mut vel = still();
    let mut state = WorkState::new_idle();
    state.current_task = Some(Task::Mining(GridPosition { x: 5, y: 5 }));

    dwarf_work_system(&mut state, &pos, &mut vel, &grid, 100);

    assert_eq!(state.current_task, Some(Task::Idle));
    assert!(state.cached_path.is_empty());
    assert_eq!(state.path_index, 0);
    assert_eq!(vel, still());
}

/// A gathering agent plans a simplified path and emits a unit step
/// toward its first waypoint.
#[test]
fn gathering_agent_walks_toward_target() {
    let grid = WorldGrid::new(8, 8);
    let pos = GridPosition { x: 0, y: 0 };
    let mut vel = still();
    let mut state = WorkState::new_idle();
    state.current_task = Some(Task::Gathering(GridPosition { x: 3, y: 0 }));

    dwarf_work_system(&mut state, &pos, &mut vel, &grid, 100);

    assert_eq!(state.current_task, Some(Task::Gathering(GridPosition { x: 3, y: 0 })));
    assert_eq!(state.cached_path, vec![(1, 0), (3, 0)]);
    assert_eq!(state.path_index, 0);
    assert_eq!(vel, Velocity { x: 1, y: 0 });
}

/// Arrival at the work target stops the agent and clears the cache;
/// the task itself stays for the accrual pass.
#[test]
fn gathering_agent_halts_on_arrival() {
    let grid = WorldGrid::new(8, 8);
    let pos = GridPosition { x: 3, y: 0 };
    let mut vel = Velocity { x: 1, y: 0 };
    let mut state = WorkState::new_idle();
    state.current_task = Some(Task::Gathering(GridPosition { x: 3, y: 0 }));
    state.cached_path = vec![(1, 0), (3, 0)];
    state.path_index = 1;

    dwarf_work_system(&mut state, &pos, &mut vel, &grid, 100);

    assert_eq!(state.current_task, Some(Task::Gathering(GridPosition { x: 3, y: 0 })));
    assert!(state.cached_path.is_empty());
    assert_eq!(vel, still());
}

/// A blocked waypoint forces a cache drop and an immediate re-plan.
#[test]
fn blocked_waypoint_drops_cache() {
    let mut grid = WorldGrid::new(8, 8);
    let pos = GridPosition { x: 0, y: 0 };
    let mut vel = still();
    let mut state = WorkState::new_idle();
    state.current_task = Some(Task::Gathering(GridPosition { x: 3, y: 0 }));
    state.cached_path = vec![(1, 0), (3, 0)];
    state.path_index = 0;
    // The cached waypoint becomes water mid-transit.
    grid.set_cell(1, 0, TerrainType::Water, 100);

    dwarf_work_system(&mut state, &pos, &mut vel, &grid, 100);

    assert_eq!(state.current_task, Some(Task::Gathering(GridPosition { x: 3, y: 0 })));
    assert!(state.cached_path.is_empty());
    assert!(state.path_recalc_timer > colony_core::work::PATH_RECALC_MS);
}

/// Wandering ends on arrival.
#[test]
fn wander_arrival_goes_idle() {
    let grid = WorldGrid::new(8, 8);
    let pos = GridPosition { x: 4, y: 4 };
    let mut vel = Velocity { x: 1, y: 0 };
    let mut state = WorkState::new_idle();
    state.current_task = Some(Task::Wandering(GridPosition { x: 4, y: 4 }));
    state.task_duration = 3000;

    dwarf_work_system(&mut state, &pos, &mut vel, &grid, 100);

    assert_eq!(state.current_task, Some(Task::Idle));
    assert!(state.cached_path.is_empty());
    assert_eq!(state.task_duration, 0);
    assert_eq!(vel, still());
}

/// Wandering times out rather than running forever.
#[test]
fn wander_timeout_goes_idle() {
    let grid = WorldGrid::new(8, 8);
    let pos = GridPosition { x: 0, y: 0 };
    let mut vel = still();
    let mut state = WorkState::new_idle();
    state.current_task = Some(Task::Wandering(GridPosition { x: 7, y: 7 }));
    state.task_duration = colony_core::work::WANDER_TIMEOUT_MS;

    dwarf_work_system(&mut state, &pos, &mut vel, &grid, 100);

    assert_eq!(state.current_task, Some(Task::Idle));
    assert_eq!(state.task_duration, 0);
}

/// A long-running work task is abandoned after its timeout.
#[test]
fn stuck_task_times_out() {
    let grid = WorldGrid::new(8, 8);
    let pos = GridPosition { x: 0, y: 0 };
    let mut vel = still();
    let mut state = WorkState::new_idle();
    state.current_task = Some(Task::Mining(GridPosition { x: 7, y: 7 }));
    state.task_duration = colony_core::work::TASK_TIMEOUT_MS;
    state.work_progress = 123;

    dwarf_work_system(&mut state, &pos, &mut vel, &grid, 100);

    assert_eq!(state.current_task, Some(Task::Idle));
    assert_eq!(state.work_progress, 0);
    assert_eq!(state.task_duration, 0);
}

/// An idle agent under cooldown does nothing; a zero tick changes
/// nothing at all.
#[test]
fn cooldown_and_pause_hold_the_agent() {
    let grid = WorldGrid::new(8, 8);
    let pos = GridPosition { x: 2, y: 2 };
    let mut vel = still();
    let mut state = WorkState::new_idle();
    state.task_cooldown = 10_000;

    dwarf_work_system(&mut state, &pos, &mut vel, &grid, 100);
    assert_eq!(state.current_task, Some(Task::Idle));
    assert_eq!(state.task_cooldown, 9_900);

    let before = state.clone();
    dwarf_work_system(&mut state, &pos, &mut vel, &grid, 0);
    assert_eq!(state.current_task, before.current_task);
    assert_eq!(state.task_cooldown, before.task_cooldown);
    assert_eq!(state.task_duration, before.task_duration);
}

/// Whatever the random draws decide, an idle agent only ever moves to
/// idle, wandering, gathering or mining, with a walkable target, and
/// progress stays zeroed across task changes.
#[test]
fn idle_decisions_respect_invariants() {
    let mut grid = WorldGrid::new(12, 12);
    grid.set_cell(5, 5, TerrainType::Tree, 140);
    grid.set_cell(6, 5, TerrainType::Stone, 120);
    grid.set_cell(2, 8, TerrainType::Water, 100);
    let pos = GridPosition { x: 4, y: 4 };
    for _ in 0..50 {
        let mut vel = still();
        let mut state = WorkState::new_idle();
        dwarf_work_system(&mut state, &pos, &mut vel, &grid, 100);
        match state.current_task {
            Some(Task::Idle) => {}
            Some(Task::Wandering(t)) | Some(Task::Gathering(t)) | Some(Task::Mining(t)) => {
                assert!(grid.is_walkable(t.x, t.y));
                assert!(state.cached_path.is_empty());
                assert_eq!(state.work_progress, 0);
                assert_eq!(state.task_duration, 0);
            }
            other => panic!("idle agent moved to {:?}", other),
        }
        if let Some(Task::Mining(t)) = state.current_task {
            // Mining only on mineral cells.
            assert_eq!(t, GridPosition { x: 6, y: 5 });
        }
    }
}
