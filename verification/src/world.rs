//! The world grid: a rectangular, row-major array of terrain cells,
//! immutable during a tick, queried by the pathfinder and the
//! scheduler.
use vstd::prelude::*;

use crate::components::{Terrain, TerrainType, RICHNESS_MAX, RICHNESS_MIN};

verus! {

/// Largest allowed grid side length.
pub const MAX_GRID_SIDE: i32 = 4096;

/// The terrain grid of one loaded region.
pub struct WorldGrid {
    pub width: i32,
    pub height: i32,
    pub cells: Vec<Terrain>,
}

impl WorldGrid {
    /// Well-formedness: positive bounded sides, one cell per
    /// coordinate, and every cell well formed (walkability agreeing
    /// with its kind, richness in range).
    pub open spec fn wf(self) -> bool {
        &&& 0 < self.width <= MAX_GRID_SIDE
        &&& 0 < self.height <= MAX_GRID_SIDE
        &&& self.cells@.len() == self.width * self.height
        &&& forall|i: int| 0 <= i < self.cells@.len() ==> self.cells@[i].wf()
    }

    pub open spec fn in_bounds_spec(self, x: int, y: int) -> bool {
        0 <= x < self.width && 0 <= y < self.height
    }

    /// Row-major index of a coordinate.
    pub open spec fn idx(self, x: int, y: int) -> int {
        y * self.width + x
    }

    /// The cell at an in-bounds coordinate.
    pub open spec fn cell(self, x: int, y: int) -> Terrain {
        self.cells@[self.idx(x, y)]
    }

    /// Whether the coordinate is in bounds and its cell walkable.
    pub open spec fn walkable_at(self, x: int, y: int) -> bool {
        self.in_bounds_spec(x, y) && self.cell(x, y).walkable
    }

    pub(crate) proof fn lemma_idx_in_range(self, x: int, y: int)
        requires
            self.wf(),
            self.in_bounds_spec(x, y),
        ensures
            0 <= self.idx(x, y) < self.cells@.len(),
    {
        let w = self.width as int;
        let h = self.height as int;
        assert(y * w + x < h * w) by (nonlinear_arith)
            requires 0 <= x < w && 0 <= y < h
        ;
        assert(0 <= y * w + x) by (nonlinear_arith)
            requires 0 <= x && 0 <= y && 0 < w
        ;
    }

    /// Row-major index of an in-bounds coordinate, as a vector index.
    pub(crate) fn index_of(&self, x: i32, y: i32) -> (i: usize)
        requires
            self.wf(),
            self.in_bounds_spec(x as int, y as int),
        ensures
            i == self.idx(x as int, y as int),
            i < self.cells@.len(),
    {
        proof {
            self.lemma_idx_in_range(x as int, y as int);
            assert(0 <= (y as int) * (self.width as int)
                && (y as int) * (self.width as int) + (x as int) < 4096 * 4096)
                by (nonlinear_arith)
                requires
                    0 <= x < self.width,
                    0 <= y < self.height,
                    self.width <= 4096,
                    self.height <= 4096,
            ;
        }
        (y as usize) * (self.width as usize) + (x as usize)
    }

    /// A fresh grid of the given size, all grass at neutral richness.
    pub fn new(width: i32, height: i32) -> (g: WorldGrid)
        requires
            0 < width <= MAX_GRID_SIDE,
            0 < height <= MAX_GRID_SIDE,
        ensures
            g.wf(),
            g.width == width,
            g.height == height,
            forall|i: int| 0 <= i < g.cells@.len()
                ==> g.cells@[i].terrain_type == TerrainType::Grass
                    && g.cells@[i].resource_richness == 100,
    {
        proof {
            assert((width as usize) * (height as usize) == (width as int) * (height as int)
                && (width as int) * (height as int) <= 4096 * 4096)
                by (nonlinear_arith)
                requires 0 < width <= 4096 && 0 < height <= 4096
            ;
        }
        let total: usize = (width as usize) * (height as usize);
        let mut cells: Vec<Terrain> = Vec::new();
        let mut i: usize = 0;
        while i < total
            invariant
                cells@.len() == i,
                i <= total,
                forall|j: int| 0 <= j < i ==> cells@[j].wf()
                    && cells@[j].terrain_type == TerrainType::Grass
                    && cells@[j].resource_richness == 100,
            decreases total - i,
        {
            cells.push(Terrain::new(TerrainType::Grass, 100));
            i = i + 1;
        }
        WorldGrid { width, height, cells }
    }

    pub fn in_bounds(&self, x: i32, y: i32) -> (r: bool)
        ensures
            r == self.in_bounds_spec(x as int, y as int),
    {
        0 <= x && x < self.width && 0 <= y && y < self.height
    }

    /// The cell at a coordinate, or `None` when out of bounds.
    pub fn cell_at(&self, x: i32, y: i32) -> (r: Option<Terrain>)
        requires
            self.wf(),
        ensures
            match r {
                Some(t) => self.in_bounds_spec(x as int, y as int)
                    && t == self.cell(x as int, y as int) && t.wf(),
                None => !self.in_bounds_spec(x as int, y as int),
            },
    {
        if self.in_bounds(x, y) {
            let i: usize = self.index_of(x, y);
            Some(self.cells[i])
        } else {
            None
        }
    }

    /// Whether an agent may stand on the coordinate.
    pub fn is_walkable(&self, x: i32, y: i32) -> (r: bool)
        requires
            self.wf(),
        ensures
            r == self.walkable_at(x as int, y as int),
    {
        match self.cell_at(x, y) {
            Some(t) => t.walkable,
            None => false,
        }
    }

    /// Replaces the cell at an in-bounds coordinate, deriving
    /// walkability from the new kind.
    pub fn set_cell(&mut self, x: i32, y: i32, kind: TerrainType, richness: u32)
        requires
            old(self).wf(),
            old(self).in_bounds_spec(x as int, y as int),
            RICHNESS_MIN <= richness <= RICHNESS_MAX,
        ensures
            final(self).wf(),
            final(self).width == old(self).width,
            final(self).height == old(self).height,
            final(self).cell(x as int, y as int).terrain_type == kind,
            final(self).cell(x as int, y as int).resource_richness == richness,
            forall|i: int| 0 <= i < old(self).cells@.len()
                && i != old(self).idx(x as int, y as int)
                ==> final(self).cells@[i] == old(self).cells@[i],
    {
        let i: usize = self.index_of(x, y);
        let cell = Terrain::new(kind, richness);
        self.cells.set(i, cell);
    }
}

} // verus!
