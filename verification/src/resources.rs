//! Shared simulation resources: the global inventory ledger, the game
//! clock, and the persisted form of agents whose region is unloaded.
use vstd::prelude::*;

use crate::components::{Dwarf, GridPosition, Task, WorkState};

verus! {

/// The shared resource ledger. Every mutation is saturating addition,
/// which is commutative and associative, so agents may be processed
/// in any order within a tick.
#[derive(Clone, Copy, Debug, PartialEq, Eq, Structural)]
pub struct GlobalInventory {
    pub stone: u32,
    pub wood: u32,
    pub food: u32,
    pub metal: u32,
}

/// Saturating addition on a counter.
pub open spec fn sat_add(a: u32, b: u32) -> u32 {
    if a + b > u32::MAX {
        u32::MAX
    } else {
        (a + b) as u32
    }
}

/// Saturating subtraction on a counter.
pub open spec fn sat_sub(a: u32, b: u32) -> u32 {
    if a < b {
        0u32
    } else {
        (a - b) as u32
    }
}

/// Saturation of a wide count into a u32 ledger entry.
pub open spec fn sat32(v: int) -> u32 {
    if v > u32::MAX {
        u32::MAX
    } else if v < 0 {
        0u32
    } else {
        v as u32
    }
}

impl GlobalInventory {
    /// The ledger after adding a bundle, given in the order
    /// (wood, stone, food, metal) that yield computations use.
    pub open spec fn plus_bundle(self, bundle: (u32, u32, u32, u32)) -> GlobalInventory {
        GlobalInventory {
            wood: sat_add(self.wood, bundle.0),
            stone: sat_add(self.stone, bundle.1),
            food: sat_add(self.food, bundle.2),
            metal: sat_add(self.metal, bundle.3),
        }
    }

    /// Adds a (wood, stone, food, metal) bundle to the ledger.
    pub fn add_bundle(&mut self, bundle: (u32, u32, u32, u32))
        ensures
            *final(self) == old(self).plus_bundle(bundle),
    {
        self.wood = self.wood.saturating_add(bundle.0);
        self.stone = self.stone.saturating_add(bundle.1);
        self.food = self.food.saturating_add(bundle.2);
        self.metal = self.metal.saturating_add(bundle.3);
    }
}

impl Default for GlobalInventory {
    /// The starting stock of a new game.
    fn default() -> (s: Self)
        ensures
            s == (GlobalInventory { stone: 50, wood: 30, food: 100, metal: 10 }),
    {
        GlobalInventory { stone: 50, wood: 30, food: 100, metal: 10 }
    }
}

/// The game clock: a day counter, an hour of the day, and the
/// milliseconds of game time accumulated toward the next hour.
#[derive(Clone, Copy, Debug, PartialEq, Eq, Structural)]
pub struct GameTime {
    pub day: u32,
    pub hour: u32,
    pub elapsed: u32,
}

impl GameTime {
    /// The hour always stays below 24.
    pub open spec fn wf(self) -> bool {
        self.hour < 24
    }

    /// The clock after one tick of `dt_ms` milliseconds: once a full
    /// hour has accumulated, the accumulator resets and the hour
    /// advances, wrapping into the next day at 24.
    pub open spec fn ticked(self, dt_ms: u32) -> GameTime {
        let e = sat_add(self.elapsed, dt_ms);
        if e >= crate::MS_PER_HOUR {
            if self.hour + 1 >= 24 {
                GameTime { day: sat_add(self.day, 1), hour: 0, elapsed: 0 }
            } else {
                GameTime { day: self.day, hour: (self.hour + 1) as u32, elapsed: 0 }
            }
        } else {
            GameTime { day: self.day, hour: self.hour, elapsed: e }
        }
    }
}

impl Default for GameTime {
    /// A new game starts on day 0 at 6 in the morning.
    fn default() -> (t: Self)
        ensures
            t == (GameTime { day: 0, hour: 6, elapsed: 0 }),
            t.wf(),
    {
        GameTime { day: 0, hour: 6, elapsed: 0 }
    }
}

/// Advances the game clock by one tick. At most one hour passes per
/// call; ten game seconds of accumulated tick time make one hour.
pub fn time_system(game_time: &mut GameTime, dt_ms: u32)
    requires
        old(game_time).wf(),
    ensures
        *final(game_time) == old(game_time).ticked(dt_ms),
        final(game_time).wf(),
{
    game_time.elapsed = game_time.elapsed.saturating_add(dt_ms);
    if game_time.elapsed >= crate::MS_PER_HOUR {
        game_time.elapsed = 0;
        if game_time.hour + 1 >= 24 {
            game_time.hour = 0;
            game_time.day = game_time.day.saturating_add(1);
        } else {
            game_time.hour = game_time.hour + 1;
        }
    }
}

/// The persisted, dormant form of an agent whose region is not being
/// ticked: position, vitals, task and progress, and the clock value
/// at which it was last brought up to date. The path cache is
/// dropped on storing: it is region-relative and cheap to recompute.
#[derive(Clone, Debug)]
pub struct StoredDwarf {
    pub name: String,
    pub grid_x: i32,
    pub grid_y: i32,
    pub health: u32,
    pub hunger: u32,
    pub happiness: u32,
    pub current_task: Option<Task>,
    pub work_progress: u64,
    pub last_update_day: u32,
    pub last_update_hour: u32,
}

impl StoredDwarf {
    /// Progress stays below one completed unit and the stored hour is
    /// a valid hour of day.
    pub open spec fn wf(self) -> bool {
        &&& self.work_progress < crate::PROGRESS_SCALE
        &&& self.last_update_hour < 24
    }
}

/// What storing a live agent records: vitals and task carry over, the
/// path cache is dropped, and the snapshot is stamped with the
/// current clock value.
pub open spec fn snapshot_spec(
    dwarf: Dwarf,
    pos: GridPosition,
    work: WorkState,
    game_time: GameTime,
) -> StoredDwarf {
    StoredDwarf {
        name: dwarf.name,
        grid_x: pos.x,
        grid_y: pos.y,
        health: dwarf.health,
        hunger: dwarf.hunger,
        happiness: dwarf.happiness,
        current_task: work.current_task,
        work_progress: work.work_progress,
        last_update_day: game_time.day,
        last_update_hour: game_time.hour,
    }
}

/// Rebuilds a live agent from its stored form when its region is
/// loaded again: position, vitals, task and progress carry over; the
/// path cache starts empty and is recomputed on the first tick.
pub fn restore(snapshot: &StoredDwarf) -> (r: (Dwarf, GridPosition, WorkState))
    requires
        snapshot.wf(),
    ensures
        r.0.name == snapshot.name,
        r.0.health == snapshot.health,
        r.0.hunger == snapshot.hunger,
        r.0.happiness == snapshot.happiness,
        r.1 == (GridPosition { x: snapshot.grid_x, y: snapshot.grid_y }),
        r.2.current_task == snapshot.current_task,
        r.2.work_progress == snapshot.work_progress,
        r.2.cached_path@.len() == 0,
        r.2.path_index == 0,
        r.2.path_recalc_timer == 0,
        r.2.task_cooldown == 0,
        r.2.task_duration == 0,
        r.2.wf(),
{
    let dwarf = Dwarf {
        name: snapshot.name.clone(),
        health: snapshot.health,
        hunger: snapshot.hunger,
        happiness: snapshot.happiness,
    };
    let pos = GridPosition { x: snapshot.grid_x, y: snapshot.grid_y };
    let work = WorkState {
        current_task: snapshot.current_task,
        work_progress: snapshot.work_progress,
        cached_path: Vec::new(),
        path_index: 0,
        path_recalc_timer: 0,
        task_cooldown: 0,
        task_duration: 0,
    };
    (dwarf, pos, work)
}

/// The stored agents of one unloaded region, keyed by its world
/// coordinate.
#[derive(Debug)]
pub struct DwarfRegion {
    pub coord: (i32, i32),
    pub dwarves: Vec<StoredDwarf>,
}

/// All stored agents of all currently unloaded regions.
#[derive(Debug)]
pub struct GeneratedMapsRegistry {
    pub dwarves: Vec<DwarfRegion>,
}

impl GeneratedMapsRegistry {
    pub fn new() -> (r: GeneratedMapsRegistry)
        ensures
            r.dwarves@.len() == 0,
    {
        GeneratedMapsRegistry { dwarves: Vec::new() }
    }
}

/// Whether some region of the sequence has the given coordinate.
pub open spec fn has_coord(regs: Seq<DwarfRegion>, coord: (i32, i32)) -> bool {
    exists|k: int| 0 <= k < regs.len() && (#[trigger] regs[k]).coord == coord
}

/// The stored list is the snapshot of the agent list, element by
/// element, at the given clock value.
pub open spec fn stored_matches(
    s: Seq<StoredDwarf>,
    agents: Seq<(Dwarf, GridPosition, WorkState)>,
    game_time: GameTime,
) -> bool {
    &&& s.len() == agents.len()
    &&& forall|j: int| 0 <= j < s.len() ==> #[trigger] s[j] == snapshot_spec(
        agents[j].0,
        agents[j].1,
        agents[j].2,
        game_time,
    )
}

/// Stores the live agents of the active region into the registry,
/// replacing that region's previous entry (or adding one), each agent
/// snapshotted at the current clock value. An empty agent list leaves
/// the registry unchanged.
pub fn save_dwarves_state(
    registry: &mut GeneratedMapsRegistry,
    coord: (i32, i32),
    agents: &Vec<(Dwarf, GridPosition, WorkState)>,
    game_time: &GameTime,
)
    ensures
        agents@.len() == 0 ==> final(registry).dwarves@ == old(registry).dwarves@,
        agents@.len() > 0 && has_coord(old(registry).dwarves@, coord) ==> {
            let before = old(registry).dwarves@;
            let after = final(registry).dwarves@;
            exists|k: int|
                0 <= k < before.len() && (#[trigger] before[k]).coord == coord && after.len()
                    == before.len() && after[k].coord == coord && stored_matches(
                    after[k].dwarves@,
                    agents@,
                    *game_time,
                ) && (forall|j: int| 0 <= j < before.len() && j != k ==> after[j] == before[j])
        },
        agents@.len() > 0 && !has_coord(old(registry).dwarves@, coord) ==> {
            let before = old(registry).dwarves@;
            let after = final(registry).dwarves@;
            &&& after.len() == before.len() + 1
            &&& forall|j: int| 0 <= j < before.len() ==> after[j] == before[j]
            &&& after.last().coord == coord
            &&& stored_matches(after.last().dwarves@, agents@, *game_time)
        },
{
    if agents.len() == 0 {
        return ;
    }
    let mut stored: Vec<StoredDwarf> = Vec::new();
    let mut i: usize = 0;
    while i < agents.len()
        invariant
            i <= agents@.len(),
            stored@.len() == i,
            forall|j: int| 0 <= j < i ==> #[trigger] stored@[j] == snapshot_spec(
                agents@[j].0,
                agents@[j].1,
                agents@[j].2,
                *game_time,
            ),
        decreases agents@.len() - i,
    {
        let a = &agents[i];
        stored.push(
            StoredDwarf {
                name: a.0.name.clone(),
                grid_x: a.1.x,
                grid_y: a.1.y,
                health: a.0.health,
                hunger: a.0.hunger,
                happiness: a.0.happiness,
                current_task: a.2.current_task,
                work_progress: a.2.work_progress,
                last_update_day: game_time.day,
                last_update_hour: game_time.hour,
            },
        );
        i = i + 1;
    }
    let mut k: usize = 0;
    while k < registry.dwarves.len()
        invariant
            agents@.len() > 0,
            k <= registry.dwarves@.len(),
            *registry == *old(registry),
            stored_matches(stored@, agents@, *game_time),
            forall|j: int| 0 <= j < k ==> (#[trigger] registry.dwarves@[j]).coord != coord,
        decreases registry.dwarves@.len() - k,
    {
        if registry.dwarves[k].coord.0 == coord.0 && registry.dwarves[k].coord.1 == coord.1 {
            registry.dwarves[k] = DwarfRegion { coord, dwarves: stored };
            return ;
        }
        k = k + 1;
    }
    registry.dwarves.push(DwarfRegion { coord, dwarves: stored });
}

} // verus!
