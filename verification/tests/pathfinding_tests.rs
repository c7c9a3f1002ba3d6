use std::collections::VecDeque;

use colony_core::components::TerrainType;
use colony_core::pathfinding::{expand_path, find_path, simplify_path};
use colony_core::world::WorldGrid;

fn grass_grid(w: i32, h: i32) -> WorldGrid {
    WorldGrid::new(w, h)
}

fn block(grid: &mut WorldGrid, x: i32, y: i32) {
    grid.set_cell(x, y, TerrainType::Water, 100);
}

/// Brute-force BFS hop count over the same grid, `None` if unreachable.
fn bfs_dist(grid: &WorldGrid, start: (i32, i32), goal: (i32, i32)) -> Option<u32> {
    if !grid.is_walkable(goal.0, goal.1) {
        return None;
    }
    if start == goal {
        return Some(0);
    }
    let w = grid.width;
    let h = grid.height;
    let mut dist: Vec<Option<u32>> = vec![None; (w * h) as usize];
    let idx = |x: i32, y: i32| (y * w + x) as usize;
    let mut q: VecDeque<(i32, i32)> = VecDeque::new();
    dist[idx(start.0, start.1)] = Some(0);
    q.push_back(start);
    while let Some((cx, cy)) = q.pop_front() {
        let d = dist[idx(cx, cy)].unwrap();
        for (nx, ny) in [(cx + 1, cy), (cx - 1, cy), (cx, cy + 1), (cx, cy - 1)] {
            if nx < 0 || nx >= w || ny < 0 || ny >= h {
                continue;
            }
            if !grid.is_walkable(nx, ny) {
                continue;
            }
            if dist[idx(nx, ny)].is_none() {
                dist[idx(nx, ny)] = Some(d + 1);
                if (nx, ny) == goal {
                    return Some(d + 1);
                }
                q.push_back((nx, ny));
            }
        }
    }
    None
}

fn assert_valid_path(grid: &WorldGrid, start: (i32, i32), goal: (i32, i32), path: &[(i32, i32)]) {
    let mut prev = start;
    for &p in path {
        let dx = (p.0 - prev.0).abs();
        let dy = (p.1 - prev.1).abs();
        assert_eq!(dx + dy, 1, "step {:?} -> {:?} is not 4-connected", prev, p);
        assert!(grid.is_walkable(p.0, p.1), "cell {:?} not walkable", p);
        prev = p;
    }
    if !path.is_empty() {
        assert_eq!(*path.last().unwrap(), goal);
    }
}

#[test]
fn path_on_open_grid_is_valid_and_shortest() {
    let grid = grass_grid(10, 10);
    let path = find_path((1, 1), (7, 4), &grid).expect("path on open grid");
    assert_valid_path(&grid, (1, 1), (7, 4), &path);
    assert_eq!(path.len() as u32, bfs_dist(&grid, (1, 1), (7, 4)).unwrap());
    assert_eq!(path.len(), 9); // Manhattan distance
}

#[test]
fn path_same_start_and_goal_is_empty() {
    let grid = grass_grid(5, 5);
    let path = find_path((2, 2), (2, 2), &grid).expect("goal equals start");
    assert!(path.is_empty());
}

#[test]
fn path_to_unwalkable_goal_is_none() {
    let mut grid = grass_grid(5, 5);
    block(&mut grid, 3, 3);
    assert!(find_path((0, 0), (3, 3), &grid).is_none());
}

#[test]
fn path_to_enclosed_goal_is_none() {
    let mut grid = grass_grid(9, 9);
    for (x, y) in [(4, 3), (4, 5), (3, 4), (5, 4)] {
        block(&mut grid, x, y);
    }
    assert!(find_path((0, 0), (4, 4), &grid).is_none());
}

#[test]
fn path_around_wall_matches_bfs() {
    let mut grid = grass_grid(12, 12);
    // A wall with a single gap at the top.
    for y in 0..11 {
        block(&mut grid, 6, y);
    }
    let path = find_path((2, 2), (10, 2), &grid).expect("detour exists");
    assert_valid_path(&grid, (2, 2), (10, 2), &path);
    assert_eq!(path.len() as u32, bfs_dist(&grid, (2, 2), (10, 2)).unwrap());
}

#[test]
fn path_through_maze_matches_bfs() {
    let mut grid = grass_grid(8, 8);
    for (x, y) in [(1, 1), (2, 1), (3, 1), (5, 1), (1, 3), (3, 3), (4, 3), (5, 3), (6, 3), (3, 5), (2, 5), (6, 5), (6, 6)] {
        block(&mut grid, x, y);
    }
    for start in [(0, 0), (7, 7), (4, 4)] {
        for goal in [(7, 0), (0, 7), (5, 5), (2, 2)] {
            match find_path(start, goal, &grid) {
                Some(p) => {
                    assert_valid_path(&grid, start, goal, &p);
                    assert_eq!(
                        p.len() as u32,
                        bfs_dist(&grid, start, goal).unwrap(),
                        "suboptimal path {:?} -> {:?}",
                        start,
                        goal
                    );
                }
                None => assert!(
                    bfs_dist(&grid, start, goal).is_none() || start == goal,
                    "missed path {:?} -> {:?}",
                    start,
                    goal
                ),
            }
        }
    }
}

#[test]
fn simplify_collapses_straight_run() {
    let path = vec![(0, 0), (1, 0), (2, 0), (3, 0)];
    let simplified = simplify_path(path);
    assert_eq!(simplified, vec![(0, 0), (3, 0)]);
}

#[test]
fn simplify_keeps_corners() {
    let path = vec![(0, 0), (1, 0), (2, 0), (2, 1), (2, 2), (3, 2)];
    let simplified = simplify_path(path);
    assert_eq!(simplified, vec![(0, 0), (2, 0), (2, 2), (3, 2)]);
}

#[test]
fn simplify_short_paths_unchanged() {
    assert_eq!(simplify_path(Vec::new()), Vec::new());
    assert_eq!(simplify_path(vec![(4, 4)]), vec![(4, 4)]);
    assert_eq!(simplify_path(vec![(4, 4), (4, 5)]), vec![(4, 4), (4, 5)]);
}

#[test]
fn expand_reproduces_simplified_route() {
    let path = vec![
        (0, 0),
        (1, 0),
        (2, 0),
        (2, 1),
        (2, 2),
        (1, 2),
        (1, 3),
        (1, 4),
        (2, 4),
    ];
    let simplified = simplify_path(path.clone());
    assert!(simplified.len() < path.len());
    assert_eq!(expand_path(&simplified), path);
}

#[test]
fn expand_reproduces_found_route() {
    let mut grid = grass_grid(10, 10);
    for y in 0..9 {
        block(&mut grid, 4, y);
    }
    let raw = find_path((1, 1), (8, 1), &grid).expect("detour exists");
    let simplified = simplify_path(raw.clone());
    let expanded = expand_path(&simplified);
    assert_eq!(expanded, raw);
    assert_eq!(expanded.first(), raw.first());
    assert_eq!(expanded.last(), raw.last());
    for p in &expanded {
        assert!(grid.is_walkable(p.0, p.1));
    }
}
