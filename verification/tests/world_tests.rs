use colony_core::components::{Terrain, TerrainType};
use colony_core::resources::{time_system, GameTime, GlobalInventory};
use colony_core::world::WorldGrid;
use colony_core::MS_PER_HOUR;

#[test]
fn terrain_multipliers_exact() {
    assert_eq!(TerrainType::Tree.resource_multiplier(), 15);
    assert_eq!(TerrainType::Stone.resource_multiplier(), 12);
    assert_eq!(TerrainType::Mountain.resource_multiplier(), 18);
    assert_eq!(TerrainType::Water.resource_multiplier(), 8);
    assert_eq!(TerrainType::Grass.resource_multiplier(), 10);
}

#[test]
fn movement_speed_zero_exactly_on_unwalkable_kinds() {
    assert_eq!(TerrainType::Grass.movement_speed(), 10);
    assert_eq!(TerrainType::Stone.movement_speed(), 9);
    assert_eq!(TerrainType::Tree.movement_speed(), 8);
    assert_eq!(TerrainType::Water.movement_speed(), 0);
    assert_eq!(TerrainType::Mountain.movement_speed(), 0);
}

#[test]
fn terrain_walkability_follows_kind() {
    assert!(Terrain::new(TerrainType::Grass, 100).walkable);
    assert!(Terrain::new(TerrainType::Stone, 40).walkable);
    assert!(Terrain::new(TerrainType::Tree, 180).walkable);
    assert!(!Terrain::new(TerrainType::Water, 100).walkable);
    assert!(!Terrain::new(TerrainType::Mountain, 100).walkable);
}

#[test]
fn grid_queries() {
    let mut grid = WorldGrid::new(4, 3);
    assert_eq!((grid.width, grid.height), (4, 3));
    assert!(grid.in_bounds(0, 0));
    assert!(grid.in_bounds(3, 2));
    assert!(!grid.in_bounds(4, 2));
    assert!(!grid.in_bounds(0, 3));
    assert!(!grid.in_bounds(-1, 0));
    assert!(grid.cell_at(5, 5).is_none());

    let cell = grid.cell_at(1, 2).unwrap();
    assert_eq!(cell.terrain_type, TerrainType::Grass);
    assert_eq!(cell.resource_richness, 100);
    assert!(cell.walkable);

    grid.set_cell(1, 2, TerrainType::Mountain, 180);
    let cell = grid.cell_at(1, 2).unwrap();
    assert_eq!(cell.terrain_type, TerrainType::Mountain);
    assert_eq!(cell.resource_richness, 180);
    assert!(!cell.walkable);
    assert!(!grid.is_walkable(1, 2));
    // The neighbour is untouched.
    assert!(grid.is_walkable(0, 2));
}

#[test]
fn inventory_default_stock() {
    let inv = GlobalInventory::default();
    assert_eq!((inv.stone, inv.wood, inv.food, inv.metal), (50, 30, 100, 10));
}

#[test]
fn clock_starts_at_six() {
    let t = GameTime::default();
    assert_eq!((t.day, t.hour, t.elapsed), (0, 6, 0));
}

#[test]
fn clock_advances_one_hour_per_accumulated_period() {
    let mut t = GameTime::default();
    time_system(&mut t, MS_PER_HOUR - 1);
    assert_eq!((t.day, t.hour, t.elapsed), (0, 6, MS_PER_HOUR - 1));
    time_system(&mut t, 1);
    assert_eq!((t.day, t.hour, t.elapsed), (0, 7, 0));
}

#[test]
fn clock_wraps_midnight() {
    let mut t = GameTime { day: 4, hour: 23, elapsed: 0 };
    time_system(&mut t, MS_PER_HOUR);
    assert_eq!((t.day, t.hour, t.elapsed), (5, 0, 0));
}
