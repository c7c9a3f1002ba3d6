use colony_core::components::{GridPosition, Task, WorkState};
use colony_core::global_simulation::{
    cycle_hours, elapsed_hours, simulate_all_offscreen_dwarves, simulate_dwarf_work,
    simulate_offscreen_dwarves,
};
use colony_core::resources::{
    save_dwarves_state, DwarfRegion, GameTime, GeneratedMapsRegistry, GlobalInventory, StoredDwarf,
};
use colony_core::work::resource_gathering_system;
use colony_core::world::WorldGrid;
use colony_core::PROGRESS_SCALE;

fn stored(task: Option<Task>, day: u32, hour: u32) -> StoredDwarf {
    StoredDwarf {
        name: String::from("urist"),
        grid_x: 3,
        grid_y: 4,
        health: 1000,
        hunger: 500,
        happiness: 750,
        current_task: task,
        work_progress: 0,
        last_update_day: day,
        last_update_hour: hour,
    }
}

fn target() -> GridPosition {
    GridPosition { x: 7, y: 7 }
}

fn inventory_zero() -> GlobalInventory {
    GlobalInventory { stone: 0, wood: 0, food: 0, metal: 0 }
}

fn clock(day: u32, hour: u32) -> GameTime {
    GameTime { day, hour, elapsed: 0 }
}

#[test]
fn elapsed_hours_cases() {
    assert_eq!(elapsed_hours(3, 6, 3, 14), 8);
    assert_eq!(elapsed_hours(3, 6, 3, 6), 0);
    assert_eq!(elapsed_hours(0, 23, 1, 0), 1);
    assert_eq!(elapsed_hours(0, 23, 1, 22), 23);
    assert_eq!(elapsed_hours(0, 23, 2, 0), 25);
    // A clock that moved backwards counts as no elapsed time.
    assert_eq!(elapsed_hours(5, 3, 5, 1), 0);
    assert_eq!(elapsed_hours(5, 3, 4, 9), 0);
}

#[test]
fn cycle_lengths_ordered() {
    let g = cycle_hours(&Some(Task::Gathering(target())));
    let m = cycle_hours(&Some(Task::Mining(target())));
    let i = cycle_hours(&Some(Task::Idle));
    let w = cycle_hours(&Some(Task::Wandering(target())));
    assert_eq!((g, m, i, w), (2, 3, 4, 6));
    assert!(g < m && m < i && i < w);
    assert_eq!(cycle_hours(&None), 0);
}

/// Eight offline hours of a two-hour gathering task: exactly four
/// cycles' worth of resources and no leftover progress.
#[test]
fn eight_hour_offline_gathering() {
    let mut dwarves = vec![stored(Some(Task::Gathering(target())), 3, 6)];
    let mut inv = inventory_zero();
    simulate_offscreen_dwarves(&mut dwarves, &clock(3, 14), &mut inv);
    assert_eq!(inv.wood, 8);
    assert_eq!(inv.food, 4);
    assert_eq!(inv.stone, 0);
    assert_eq!(inv.metal, 0);
    assert_eq!(dwarves[0].work_progress, 0);
    assert_eq!(dwarves[0].last_update_day, 3);
    assert_eq!(dwarves[0].last_update_hour, 14);
}

/// Catch-up is idempotent: a second pass at the same clock value
/// grants nothing and changes nothing, for every task kind and for
/// elapsed hours 0, 1, 5, 23 and 25.
#[test]
fn catch_up_idempotent_for_all_tasks_and_spans() {
    let tasks: [Option<Task>; 6] = [
        Some(Task::Gathering(target())),
        Some(Task::Mining(target())),
        Some(Task::Idle),
        Some(Task::Wandering(target())),
        Some(Task::Building(target(), colony_core::components::BuildingType::Farm)),
        None,
    ];
    for task in tasks {
        for elapsed in [0u32, 1, 5, 23, 25] {
            let day = 1 + (3 + elapsed) / 24;
            let hour = (3 + elapsed) % 24;
            let now = clock(day, hour);
            let mut dwarves = vec![stored(task, 1, 3)];
            let mut inv = inventory_zero();
            simulate_offscreen_dwarves(&mut dwarves, &now, &mut inv);
            let first_inv = inv;
            let first_progress = dwarves[0].work_progress;
            let first_hunger = dwarves[0].hunger;
            let first_happiness = dwarves[0].happiness;

            simulate_offscreen_dwarves(&mut dwarves, &now, &mut inv);
            assert_eq!(inv, first_inv, "task {:?}, elapsed {}", task, elapsed);
            assert_eq!(dwarves[0].work_progress, first_progress);
            assert_eq!(dwarves[0].hunger, first_hunger);
            assert_eq!(dwarves[0].happiness, first_happiness);
            assert_eq!(dwarves[0].last_update_day, day);
            assert_eq!(dwarves[0].last_update_hour, hour);
        }
    }
}

/// Exact per-task offline arithmetic: cycles, bundles, remainder
/// folding and vital decay.
#[test]
fn offline_work_arithmetic() {
    // Mining, seven hours: two 3-hour cycles, one hour left over.
    let mut d = stored(Some(Task::Mining(target())), 0, 0);
    let delta = simulate_dwarf_work(&mut d, 7);
    assert_eq!(delta, (0, 4, 0, 2));
    assert_eq!(d.work_progress, PROGRESS_SCALE / 3);
    assert_eq!(d.hunger, 500 - 35);
    assert_eq!(d.happiness, 750 - 14);

    // Idle, nine hours: two 4-hour cycles, half a unit each of wood
    // and food.
    let mut d = stored(Some(Task::Idle), 0, 0);
    let delta = simulate_dwarf_work(&mut d, 9);
    assert_eq!(delta, (1, 0, 1, 0));
    assert_eq!(d.work_progress, PROGRESS_SCALE / 4);

    // Wandering, thirteen hours: two 6-hour cycles, a third of a unit
    // of food rounds to zero.
    let mut d = stored(Some(Task::Wandering(target())), 0, 0);
    let delta = simulate_dwarf_work(&mut d, 13);
    assert_eq!(delta, (0, 0, 0, 0));

    // Wandering, eighteen hours: three cycles give one food.
    let mut d = stored(Some(Task::Wandering(target())), 0, 0);
    let delta = simulate_dwarf_work(&mut d, 18);
    assert_eq!(delta, (0, 0, 1, 0));

    // No task: nothing happens.
    let mut d = stored(None, 0, 0);
    let delta = simulate_dwarf_work(&mut d, 50);
    assert_eq!(delta, (0, 0, 0, 0));
    assert_eq!(d.work_progress, 0);
    assert_eq!(d.hunger, 500);
}

/// Vitals decay linearly but never below their floors.
#[test]
fn vitals_floor_at_minimums() {
    let mut d = stored(Some(Task::Gathering(target())), 0, 0);
    simulate_dwarf_work(&mut d, 500);
    assert_eq!(d.hunger, 0);
    assert_eq!(d.happiness, 200);
}

/// The aggregate pass catches up every region and sums every bundle
/// into the one inventory.
#[test]
fn aggregate_pass_covers_all_regions() {
    let mut registry = GeneratedMapsRegistry::new();
    registry.dwarves.push(DwarfRegion {
        coord: (0, 0),
        dwarves: vec![
            stored(Some(Task::Gathering(target())), 0, 0),
            stored(Some(Task::Mining(target())), 0, 0),
        ],
    });
    registry.dwarves.push(DwarfRegion {
        coord: (1, 0),
        dwarves: vec![stored(Some(Task::Gathering(target())), 0, 2)],
    });
    let mut inv = inventory_zero();
    // Six hours after midnight: 3 + 2 gathering cycles, 2 mining.
    simulate_all_offscreen_dwarves(&mut registry, &clock(0, 6), &mut inv);
    assert_eq!(inv.wood, 3 * 2 + 2 * 2);
    assert_eq!(inv.food, 3 + 2);
    assert_eq!(inv.stone, 2 * 2);
    assert_eq!(inv.metal, 2);
    for region in &registry.dwarves {
        for d in &region.dwarves {
            assert_eq!((d.last_update_day, d.last_update_hour), (0, 6));
        }
    }
}

/// Foreground ticking and one catch-up call agree on a neutral cell:
/// uniform one-hour ticks over eight hours of gathering produce the
/// same inventory and the same leftover progress as one eight-hour
/// catch-up (the agent is pinned to its task, as the offline model
/// assumes).
#[test]
fn foreground_matches_catch_up_on_neutral_cell() {
    let grid = WorldGrid::new(6, 6);
    let pos = GridPosition { x: 2, y: 2 };
    let task = Some(Task::Gathering(GridPosition { x: 2, y: 2 }));
    let hours = 8u32;

    let mut state = WorkState::new_idle();
    state.current_task = task;
    let mut fg_inv = inventory_zero();
    for _ in 0..hours {
        // One game hour per tick: step = 3000 * 10_000, which divides
        // the progress scale, so no accrual is lost to rounding.
        resource_gathering_system(&mut state, &pos, &grid, &mut fg_inv, colony_core::MS_PER_HOUR);
        // A completion sends the agent idle; pin it to its task as a
        // fixed-task agent.
        if state.current_task == Some(Task::Idle) {
            state.current_task = task;
        }
    }

    let mut dwarves = vec![stored(task, 0, 0)];
    let mut bg_inv = inventory_zero();
    simulate_offscreen_dwarves(&mut dwarves, &clock(0, hours), &mut bg_inv);

    assert_eq!(fg_inv, bg_inv);
    assert_eq!(state.work_progress, dwarves[0].work_progress);
    assert_eq!(fg_inv.wood, 8);
    assert_eq!(fg_inv.food, 4);

    // The same with an odd number of hours: both sides keep the same
    // half-cycle of progress.
    let mut state = WorkState::new_idle();
    state.current_task = task;
    let mut fg_inv = inventory_zero();
    for _ in 0..5 {
        resource_gathering_system(&mut state, &pos, &grid, &mut fg_inv, colony_core::MS_PER_HOUR);
        if state.current_task == Some(Task::Idle) {
            state.current_task = task;
        }
    }
    let mut dwarves = vec![stored(task, 0, 0)];
    let mut bg_inv = inventory_zero();
    simulate_offscreen_dwarves(&mut dwarves, &clock(0, 5), &mut bg_inv);
    assert_eq!(fg_inv, bg_inv);
    assert_eq!(state.work_progress, dwarves[0].work_progress);
    assert_eq!(state.work_progress, PROGRESS_SCALE / 2);
}

/// Storing the active region's agents snapshots them at the current
/// clock, dropping the path cache, and replaces the region's previous
/// entry.
#[test]
fn save_dwarves_state_snapshots_agents() {
    let mut registry = GeneratedMapsRegistry::new();
    let gt = clock(2, 9);
    let dwarf = colony_core::components::Dwarf::new(String::from("likot"));
    let pos = GridPosition { x: 4, y: 5 };
    let mut work = WorkState::new_idle();
    work.current_task = Some(Task::Gathering(GridPosition { x: 6, y: 6 }));
    work.work_progress = 1234;
    work.cached_path = vec![(5, 5), (6, 6)];
    let agents = vec![(dwarf, pos, work)];

    save_dwarves_state(&mut registry, (3, -2), &agents, &gt);
    assert_eq!(registry.dwarves.len(), 1);
    let region = &registry.dwarves[0];
    assert_eq!(region.coord, (3, -2));
    assert_eq!(region.dwarves.len(), 1);
    let s = &region.dwarves[0];
    assert_eq!(s.name, "likot");
    assert_eq!((s.grid_x, s.grid_y), (4, 5));
    assert_eq!((s.health, s.hunger, s.happiness), (1000, 500, 750));
    assert_eq!(s.current_task, Some(Task::Gathering(GridPosition { x: 6, y: 6 })));
    assert_eq!(s.work_progress, 1234);
    assert_eq!((s.last_update_day, s.last_update_hour), (2, 9));

    // Saving again for the same region replaces its agents.
    let agents2 = vec![
        (
            colony_core::components::Dwarf::new(String::from("ast")),
            GridPosition { x: 1, y: 1 },
            WorkState::new_idle(),
        ),
        (
            colony_core::components::Dwarf::new(String::from("reg")),
            GridPosition { x: 2, y: 2 },
            WorkState::new_idle(),
        ),
    ];
    save_dwarves_state(&mut registry, (3, -2), &agents2, &gt);
    assert_eq!(registry.dwarves.len(), 1);
    assert_eq!(registry.dwarves[0].dwarves.len(), 2);

    // An empty agent list leaves the registry untouched.
    save_dwarves_state(&mut registry, (9, 9), &Vec::new(), &gt);
    assert_eq!(registry.dwarves.len(), 1);
}

/// The saved snapshot round-trips through a catch-up: storing an agent
/// and reloading it later grants the stored task's cycles.
#[test]
fn snapshot_then_catch_up() {
    let mut registry = GeneratedMapsRegistry::new();
    let gt = clock(0, 6);
    let mut work = WorkState::new_idle();
    work.current_task = Some(Task::Gathering(GridPosition { x: 6, y: 6 }));
    let agents = vec![(
        colony_core::components::Dwarf::new(String::from("likot")),
        GridPosition { x: 4, y: 5 },
        work,
    )];
    save_dwarves_state(&mut registry, (0, 0), &agents, &gt);

    let mut inv = inventory_zero();
    simulate_all_offscreen_dwarves(&mut registry, &clock(0, 14), &mut inv);
    assert_eq!(inv.wood, 8);
    assert_eq!(inv.food, 4);
}

/// A stored agent restores to a live agent with the same vitals, task
/// and progress, and an empty path cache.
#[test]
fn restore_round_trips_snapshot() {
    let mut s = stored(Some(Task::Mining(target())), 2, 5);
    s.work_progress = 42;
    let (dwarf, pos, work) = colony_core::resources::restore(&s);
    assert_eq!(dwarf.name, "urist");
    assert_eq!((dwarf.health, dwarf.hunger, dwarf.happiness), (1000, 500, 750));
    assert_eq!((pos.x, pos.y), (3, 4));
    assert_eq!(work.current_task, Some(Task::Mining(target())));
    assert_eq!(work.work_progress, 42);
    assert!(work.cached_path.is_empty());
}

/// The inventory saturates instead of wrapping.
#[test]
fn inventory_saturates() {
    let mut inv = GlobalInventory { stone: 0, wood: u32::MAX - 3, food: 0, metal: 0 };
    inv.add_bundle((10, 1, 2, 3));
    assert_eq!(inv.wood, u32::MAX);
    assert_eq!((inv.stone, inv.food, inv.metal), (1, 2, 3));
}
