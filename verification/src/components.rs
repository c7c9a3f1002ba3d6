//! The vocabulary of the simulation: terrain kinds, grid coordinates,
//! tasks, and the per-agent state the scheduler owns.
use vstd::prelude::*;

verus! {

/// A cell's terrain kind. Water and mountain cells are never walkable.
#[derive(Clone, Copy, Debug, PartialEq, Eq, Structural)]
pub enum TerrainType {
    Grass,
    Stone,
    Tree,
    Water,
    Mountain,
}

impl TerrainType {
    /// Resource output multiplier of this terrain, in tenths
    /// (10 stands for the neutral multiplier 1.0).
    pub fn resource_multiplier(&self) -> (m: u32)
        ensures
            m == self.resource_multiplier_spec(),
    {
        match self {
            TerrainType::Tree => 15,
            TerrainType::Stone => 12,
            TerrainType::Mountain => 18,
            TerrainType::Water => 8,
            TerrainType::Grass => 10,
        }
    }

    /// Movement speed multiplier of this terrain, in tenths.
    /// Zero means the terrain cannot be traversed.
    pub fn movement_speed(&self) -> (s: u32)
        ensures
            s == self.movement_speed_spec(),
            (s == 0) <==> !self.is_walkable_kind(),
    {
        match self {
            TerrainType::Grass => 10,
            TerrainType::Stone => 9,
            TerrainType::Tree => 8,
            TerrainType::Water => 0,
            TerrainType::Mountain => 0,
        }
    }

    pub open spec fn resource_multiplier_spec(self) -> u32 {
        match self {
            TerrainType::Tree => 15u32,
            TerrainType::Stone => 12u32,
            TerrainType::Mountain => 18u32,
            TerrainType::Water => 8u32,
            TerrainType::Grass => 10u32,
        }
    }

    pub open spec fn movement_speed_spec(self) -> u32 {
        match self {
            TerrainType::Grass => 10u32,
            TerrainType::Stone => 9u32,
            TerrainType::Tree => 8u32,
            TerrainType::Water => 0u32,
            TerrainType::Mountain => 0u32,
        }
    }

    /// Whether an agent may stand on or cross this terrain.
    pub open spec fn is_walkable_kind(self) -> bool {
        !(self is Water || self is Mountain)
    }
}

/// One terrain cell: its kind, whether it can be walked on, and how
/// rich in resources it is (in hundredths; the allowed range is
/// 40 to 180, i.e. 0.4 to 1.8).
#[derive(Clone, Copy, Debug)]
pub struct Terrain {
    pub terrain_type: TerrainType,
    pub walkable: bool,
    pub resource_richness: u32,
}

/// Lowest allowed resource richness of a cell, in hundredths.
pub const RICHNESS_MIN: u32 = 40;

/// Highest allowed resource richness of a cell, in hundredths.
pub const RICHNESS_MAX: u32 = 180;

impl Terrain {
    /// A cell is well formed when its walkability agrees with its
    /// terrain kind and its richness lies in the allowed range.
    pub open spec fn wf(self) -> bool {
        &&& self.walkable == self.terrain_type.is_walkable_kind()
        &&& RICHNESS_MIN <= self.resource_richness <= RICHNESS_MAX
    }

    /// Builds a cell for the given kind, deriving walkability from it.
    pub fn new(terrain_type: TerrainType, resource_richness: u32) -> (t: Terrain)
        requires
            RICHNESS_MIN <= resource_richness <= RICHNESS_MAX,
        ensures
            t.wf(),
            t.terrain_type == terrain_type,
            t.resource_richness == resource_richness,
    {
        let walkable = terrain_type.movement_speed() > 0;
        Terrain { terrain_type, walkable, resource_richness }
    }
}

/// A grid coordinate.
#[derive(Clone, Copy, Debug, PartialEq, Eq, Structural)]
pub struct GridPosition {
    pub x: i32,
    pub y: i32,
}

/// The unit-length movement intent handed to the motion integrator:
/// one step along a single axis, or standstill — movement is
/// 4-connected, so no diagonal intent is ever emitted.
#[derive(Clone, Copy, Debug, PartialEq, Eq, Structural)]
pub struct Velocity {
    pub x: i32,
    pub y: i32,
}

impl Velocity {
    pub open spec fn is_unit_intent(self) -> bool {
        &&& -1 <= self.x <= 1
        &&& -1 <= self.y <= 1
        &&& (self.x == 0 || self.y == 0)
    }
}

/// The kind of building a `Task::Building` would erect. The building
/// task is a reserved variant with no executing logic yet.
#[derive(Clone, Copy, Debug, PartialEq, Eq, Structural)]
pub enum BuildingType {
    Workshop,
    Stockpile,
    Farm,
    LivingQuarters,
}

/// What an agent is currently doing. `Building` is a dead variant:
/// the scheduler never assigns it and an agent holding it stands still.
#[derive(Clone, Copy, Debug, PartialEq, Eq, Structural)]
pub enum Task {
    Mining(GridPosition),
    Building(GridPosition, BuildingType),
    Gathering(GridPosition),
    Wandering(GridPosition),
    Idle,
}

/// Per-agent scheduling state: the current task, accumulated work
/// progress (0 to `PROGRESS_SCALE`, exclusive), the cached waypoint
/// path with the index of the next waypoint, and three timers in
/// milliseconds of game time.
#[derive(Clone, Debug)]
pub struct WorkState {
    pub current_task: Option<Task>,
    pub work_progress: u64,
    pub cached_path: Vec<(i32, i32)>,
    pub path_index: usize,
    pub path_recalc_timer: u32,
    pub task_cooldown: u32,
    pub task_duration: u32,
}

impl WorkState {
    /// Work progress stays strictly below one completed unit, and the
    /// waypoint index never runs past the cached path.
    pub open spec fn wf(self) -> bool {
        &&& self.work_progress < crate::PROGRESS_SCALE
        &&& self.path_index <= self.cached_path@.len()
    }

    /// A fresh state: idle, no progress, no cached path.
    pub fn new_idle() -> (w: WorkState)
        ensures
            w.wf(),
            w.current_task == Some(Task::Idle),
            w.work_progress == 0,
            w.cached_path@.len() == 0,
            w.path_index == 0,
            w.path_recalc_timer == 0,
            w.task_cooldown == 0,
            w.task_duration == 0,
    {
        WorkState {
            current_task: Some(Task::Idle),
            work_progress: 0,
            cached_path: Vec::new(),
            path_index: 0,
            path_recalc_timer: 0,
            task_cooldown: 0,
            task_duration: 0,
        }
    }
}

/// An agent's vital stats, in tenths (1000 stands for 100.0).
#[derive(Clone, Debug)]
pub struct Dwarf {
    pub name: String,
    pub health: u32,
    pub hunger: u32,
    pub happiness: u32,
}

impl Dwarf {
    pub fn new(name: String) -> (d: Dwarf)
        ensures
            d.name == name,
            d.health == 1000,
            d.hunger == 500,
            d.happiness == 750,
    {
        Dwarf { name, health: 1000, hunger: 500, happiness: 750 }
    }
}

} // verus!
