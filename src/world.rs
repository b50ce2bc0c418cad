use vstd::prelude::*;
use pathfinding::grid::Grid;

use crate::position::Position;

verus! {

#[verifier::external_type_specification]
#[verifier::external_body]
pub struct ExGrid(Grid);

/// The vertices present in a `pathfinding` grid; in a world they are the
/// solid tiles.
pub uninterp spec fn grid_vertices(g: Grid) -> Set<(usize, usize)>;

/// The width that a `pathfinding` grid was created with.
pub uninterp spec fn grid_width(g: Grid) -> nat;

/// The height that a `pathfinding` grid was created with.
pub uninterp spec fn grid_height(g: Grid) -> nat;

/// Relies on `Grid::new`: an empty grid of the given size.
pub assume_specification[ Grid::new ](width: usize, height: usize) -> (r: Grid)
    ensures
        grid_vertices(r) == Set::<(usize, usize)>::empty(),
        grid_width(r) == width,
        grid_height(r) == height,
;

/// Relies on `Grid::has_vertex`: membership of a vertex.
pub assume_specification[ Grid::has_vertex ](g: &Grid, vertex: (usize, usize)) -> (r: bool)
    ensures
        r == grid_vertices(*g).contains(vertex),
;

/// Relies on `Grid::add_vertex`: a vertex inside the grid is added; the result
/// says whether it was absent before. Each change computes the grid's area,
/// which must fit in a `usize`.
pub assume_specification[ Grid::add_vertex ](g: &mut Grid, vertex: (usize, usize)) -> (r: bool)
    requires
        grid_width(*old(g)) * grid_height(*old(g)) <= usize::MAX,
    ensures
        grid_width(*final(g)) == grid_width(*old(g)),
        grid_height(*final(g)) == grid_height(*old(g)),
        grid_vertices(*final(g)) == if vertex.0 < grid_width(*old(g)) && vertex.1 < grid_height(
            *old(g),
        ) {
            grid_vertices(*old(g)).insert(vertex)
        } else {
            grid_vertices(*old(g))
        },
        r == (vertex.0 < grid_width(*old(g)) && vertex.1 < grid_height(*old(g))
            && !grid_vertices(*old(g)).contains(vertex)),
;

/// Relies on `Grid::remove_vertex`: the vertex is removed; the result says
/// whether it was present. Each change computes the grid's area, which must
/// fit in a `usize`.
pub assume_specification[ Grid::remove_vertex ](g: &mut Grid, vertex: (usize, usize)) -> (r: bool)
    requires
        grid_width(*old(g)) * grid_height(*old(g)) <= usize::MAX,
    ensures
        grid_width(*final(g)) == grid_width(*old(g)),
        grid_height(*final(g)) == grid_height(*old(g)),
        grid_vertices(*final(g)) == grid_vertices(*old(g)).remove(vertex),
        r == grid_vertices(*old(g)).contains(vertex),
;

/// Largest width or height of a world. It keeps every search cost, plus the
/// squared-distance heuristic, within the `u32` costs of the path search.
pub const MAX_WORLD_SIDE: usize = 4096;

/// Handle of an agent standing on the map.
#[derive(Clone, Copy, Debug, PartialEq, Eq, Structural, Hash)]
pub struct AgentId(pub u64);

#[derive(Clone, Copy, Debug, PartialEq, Eq, Structural)]
pub enum TileState {
    Empty,
    Solid,
}

impl TileState {
    /// Index of the glyph drawn for the state.
    pub fn glyph(&self) -> (r: usize)
        ensures
            r == match self {
                TileState::Empty => '.' as usize,
                TileState::Solid => '#' as usize,
            },
    {
        match self {
            TileState::Empty => '.' as usize,
            TileState::Solid => '#' as usize,
        }
    }
}

#[derive(Clone, Copy, Debug, PartialEq, Eq, Structural)]
pub enum ResourceMaterial {
    Dirt,
    Stone,
    Coal,
    Iron,
    Gold,
    Crystal,
}

/// Position of a material in the player's resource table.
pub open spec fn material_index(m: ResourceMaterial) -> nat {
    match m {
        ResourceMaterial::Dirt => 0,
        ResourceMaterial::Stone => 1,
        ResourceMaterial::Coal => 2,
        ResourceMaterial::Iron => 3,
        ResourceMaterial::Gold => 4,
        ResourceMaterial::Crystal => 5,
    }
}

/// Number of materials.
pub const MATERIAL_COUNT: usize = 6;

impl ResourceMaterial {
    pub fn index(&self) -> (r: usize)
        ensures
            r == material_index(*self),
            r < MATERIAL_COUNT,
    {
        match self {
            ResourceMaterial::Dirt => 0,
            ResourceMaterial::Stone => 1,
            ResourceMaterial::Coal => 2,
            ResourceMaterial::Iron => 3,
            ResourceMaterial::Gold => 4,
            ResourceMaterial::Crystal => 5,
        }
    }

    /// Short code shown for the material.
    pub fn identifier(&self) -> (r: &'static str)
        ensures
            r@ == match self {
                ResourceMaterial::Dirt => "D"@,
                ResourceMaterial::Stone => "S"@,
                ResourceMaterial::Coal => "C"@,
                ResourceMaterial::Iron => "I"@,
                ResourceMaterial::Gold => "G"@,
                ResourceMaterial::Crystal => "Cr"@,
            },
    {
        proof {
            reveal_strlit("D");
            reveal_strlit("S");
            reveal_strlit("C");
            reveal_strlit("I");
            reveal_strlit("G");
            reveal_strlit("Cr");
        }
        match self {
            ResourceMaterial::Dirt => "D",
            ResourceMaterial::Stone => "S",
            ResourceMaterial::Coal => "C",
            ResourceMaterial::Iron => "I",
            ResourceMaterial::Gold => "G",
            ResourceMaterial::Crystal => "Cr",
        }
    }

    /// Bounds `(low, high)` of the size of a vein of the material, `high`
    /// excluded.
    pub fn range(&self) -> (r: (usize, usize))
        ensures
            r == match self {
                ResourceMaterial::Dirt => (0usize, 0usize),
                ResourceMaterial::Stone => (0usize, 0usize),
                ResourceMaterial::Coal => (5usize, 9usize),
                ResourceMaterial::Iron => (6usize, 9usize),
                ResourceMaterial::Gold => (4usize, 7usize),
                ResourceMaterial::Crystal => (3usize, 6usize),
            },
    {
        match self {
            ResourceMaterial::Dirt => (0, 0),
            ResourceMaterial::Stone => (0, 0),
            ResourceMaterial::Coal => (5, 9),
            ResourceMaterial::Iron => (6, 9),
            ResourceMaterial::Gold => (4, 7),
            ResourceMaterial::Crystal => (3, 6),
        }
    }
}

#[derive(Clone, Copy, Debug, PartialEq, Eq, Structural)]
pub struct Resource {
    pub material: ResourceMaterial,
    pub quantity: usize,
}

/// What the world knows of one cell.
#[derive(Clone, Copy, Debug, PartialEq, Eq, Structural)]
pub struct TileData {
    pub state: TileState,
    pub resource: Resource,
    pub marked: bool,
}

impl Default for TileData {
    /// An empty, unmarked dirt tile.
    fn default() -> (r: Self)
        ensures
            r.state == TileState::Empty,
            r.resource == (Resource { material: ResourceMaterial::Dirt, quantity: 0 }),
            !r.marked,
    {
        TileData {
            state: TileState::Empty,
            resource: Resource { material: ResourceMaterial::Dirt, quantity: 0 },
            marked: false,
        }
    }
}

/// Row-major index of a cell.
pub open spec fn cell_index(width: nat, x: nat, y: nat) -> nat {
    y * width + x
}

pub proof fn lemma_cell_index_bound(width: nat, height: nat, x: nat, y: nat)
    requires
        x < width,
        y < height,
    ensures
        cell_index(width, x, y) < width * height,
{
    assert(y * width + x < width * height) by (nonlinear_arith)
        requires
            x < width,
            y < height,
    ;
}

/// Distinct cells of a row-major layout have distinct indices.
pub proof fn lemma_cell_index_injective(width: nat, x1: nat, y1: nat, x2: nat, y2: nat)
    requires
        x1 < width,
        x2 < width,
        cell_index(width, x1, y1) == cell_index(width, x2, y2),
    ensures
        x1 == x2,
        y1 == y2,
{
    assert(x1 == x2 && y1 == y2) by (nonlinear_arith)
        requires
            x1 < width,
            x2 < width,
            y1 * width + x1 == y2 * width + x2,
    ;
}

/// The map: solid tiles, per-cell data and the agent standing on each cell.
pub struct World {
    pub width: usize,
    pub height: usize,
    /// The solid tiles, as vertices.
    pub grid: Grid,
    pub tiles: Vec<TileData>,
    pub entities: Vec<Option<AgentId>>,
}

impl World {
    pub open spec fn wf(&self) -> bool {
        &&& self.width <= MAX_WORLD_SIDE
        &&& self.height <= MAX_WORLD_SIDE
        &&& grid_width(self.grid) == self.width
        &&& grid_height(self.grid) == self.height
        &&& self.tiles@.len() == self.width * self.height
        &&& self.entities@.len() == self.width * self.height
    }

    /// The area of a well-formed world fits in a `usize`.
    pub proof fn lemma_area_fits(&self)
        requires
            self.wf(),
        ensures
            self.width * self.height <= MAX_WORLD_SIDE * MAX_WORLD_SIDE,
            grid_width(self.grid) * grid_height(self.grid) <= usize::MAX,
    {
        assert(self.width * self.height <= MAX_WORLD_SIDE * MAX_WORLD_SIDE) by (nonlinear_arith)
            requires
                self.width <= MAX_WORLD_SIDE,
                self.height <= MAX_WORLD_SIDE,
        ;
    }

    /// The cell of an in-bounds position has an index within the cell arrays.
    pub proof fn lemma_index_in_bounds(&self, p: Position)
        requires
            self.wf(),
            self.in_bounds(p),
        ensures
            0 <= self.index_of(p) < self.tiles@.len(),
            self.index_of(p) < self.entities@.len(),
    {
        lemma_cell_index_bound(self.width as nat, self.height as nat, p.x as nat, p.y as nat);
    }

    pub open spec fn in_bounds(&self, p: Position) -> bool {
        0 <= p.x < self.width && 0 <= p.y < self.height
    }

    pub open spec fn solid(&self, p: Position) -> bool {
        grid_vertices(self.grid).contains((p.x as usize, p.y as usize))
    }

    pub open spec fn index_of(&self, p: Position) -> int {
        cell_index(self.width as nat, p.x as nat, p.y as nat) as int
    }

    /// The agent standing on an in-bounds cell.
    pub open spec fn occupant(&self, p: Position) -> Option<AgentId> {
        self.entities@[self.index_of(p)]
    }

    pub open spec fn tile(&self, p: Position) -> TileData {
        self.tiles@[self.index_of(p)]
    }

    /// For each cell, row by row, whether no agent stands on it.
    pub open spec fn free_cells(&self) -> Seq<bool> {
        self.entities@.map_values(|o: Option<AgentId>| o.is_none())
    }

    /// A cell that an agent may step onto.
    pub open spec fn passable(&self, p: Position) -> bool {
        &&& self.in_bounds(p)
        &&& !self.solid(p)
        &&& self.occupant(p).is_none()
    }

    /// An empty world: no solid tile, no agent, every tile empty dirt.
    pub fn new(width: usize, height: usize) -> (r: Self)
        requires
            width <= MAX_WORLD_SIDE,
            height <= MAX_WORLD_SIDE,
        ensures
            r.wf(),
            r.width == width,
            r.height == height,
            grid_vertices(r.grid) == Set::<(usize, usize)>::empty(),
            forall|i: int| 0 <= i < r.entities@.len() ==> r.entities@[i].is_none(),
            forall|i: int|
                0 <= i < r.tiles@.len() ==> (#[trigger] r.tiles@[i]).state == TileState::Empty
                    && !r.tiles@[i].marked,
    {
        assert(width * height <= MAX_WORLD_SIDE * MAX_WORLD_SIDE) by (nonlinear_arith)
            requires
                width <= MAX_WORLD_SIDE,
                height <= MAX_WORLD_SIDE,
        ;
        let n: usize = width * height;
        let mut tiles: Vec<TileData> = Vec::with_capacity(n);
        let mut entities: Vec<Option<AgentId>> = Vec::with_capacity(n);
        let mut i: usize = 0;
        while i < n
            invariant
                i <= n,
                tiles@.len() == i,
                entities@.len() == i,
                forall|j: int| 0 <= j < i ==> entities@[j].is_none(),
                forall|j: int|
                    0 <= j < i ==> (#[trigger] tiles@[j]).state == TileState::Empty
                        && !tiles@[j].marked,
            decreases n - i,
        {
            tiles.push(TileData::default());
            entities.push(None);
            i = i + 1;
        }
        World { width, height, grid: Grid::new(width, height), tiles, entities }
    }

    fn index(&self, pos: (usize, usize)) -> (r: usize)
        requires
            self.wf(),
            pos.0 < self.width,
            pos.1 < self.height,
        ensures
            r == cell_index(self.width as nat, pos.0 as nat, pos.1 as nat),
            r < self.tiles@.len(),
    {
        proof {
            lemma_cell_index_bound(self.width as nat, self.height as nat, pos.0 as nat, pos.1 as nat);
            assert(self.width * self.height <= MAX_WORLD_SIDE * MAX_WORLD_SIDE) by (nonlinear_arith)
                requires
                    self.width <= MAX_WORLD_SIDE,
                    self.height <= MAX_WORLD_SIDE,
            ;
        }
        pos.1 * self.width + pos.0
    }

    /// The agent standing on a cell, if any.
    pub fn get_entity(&self, pos: (usize, usize)) -> (r: Option<AgentId>)
        requires
            self.wf(),
            pos.0 < self.width,
            pos.1 < self.height,
        ensures
            r == self.entities@[cell_index(self.width as nat, pos.0 as nat, pos.1 as nat) as int],
    {
        let i = self.index(pos);
        self.entities[i]
    }

    /// Puts an agent on a cell, or clears it.
    pub fn set_entity(&mut self, pos: (usize, usize), value: Option<AgentId>)
        requires
            old(self).wf(),
            pos.0 < old(self).width,
            pos.1 < old(self).height,
        ensures
            final(self).wf(),
            final(self).width == old(self).width,
            final(self).height == old(self).height,
            final(self).grid == old(self).grid,
            final(self).tiles == old(self).tiles,
            final(self).entities@ == old(self).entities@.update(
                cell_index(old(self).width as nat, pos.0 as nat, pos.1 as nat) as int,
                value,
            ),
            cell_index(old(self).width as nat, pos.0 as nat, pos.1 as nat) < old(self).entities@.len(),
    {
        let i = self.index(pos);
        self.entities.set(i, value);
    }

    /// Whether the tile at `pos` blocks movement.
    pub fn is_solid_tile(&self, pos: (usize, usize)) -> (r: bool)
        ensures
            r == grid_vertices(self.grid).contains(pos),
    {
        self.grid.has_vertex(pos)
    }

    /// The data of a cell.
    pub fn get_tile(&self, pos: (usize, usize)) -> (r: TileData)
        requires
            self.wf(),
            pos.0 < self.width,
            pos.1 < self.height,
        ensures
            r == self.tiles@[cell_index(self.width as nat, pos.0 as nat, pos.1 as nat) as int],
            cell_index(self.width as nat, pos.0 as nat, pos.1 as nat) < self.tiles@.len(),
    {
        let i = self.index(pos);
        self.tiles[i]
    }

    /// Replaces the data of a cell.
    pub fn set_tile(&mut self, pos: (usize, usize), tile: TileData)
        requires
            old(self).wf(),
            pos.0 < old(self).width,
            pos.1 < old(self).height,
        ensures
            final(self).wf(),
            final(self).width == old(self).width,
            final(self).height == old(self).height,
            final(self).grid == old(self).grid,
            final(self).entities == old(self).entities,
            final(self).tiles@ == old(self).tiles@.update(
                cell_index(old(self).width as nat, pos.0 as nat, pos.1 as nat) as int,
                tile,
            ),
            cell_index(old(self).width as nat, pos.0 as nat, pos.1 as nat) < old(self).tiles@.len(),
    {
        let i = self.index(pos);
        self.tiles.set(i, tile);
    }

    /// Makes a tile solid, as world generation does.
    pub fn make_solid(&mut self, pos: (usize, usize))
        requires
            old(self).wf(),
            pos.0 < old(self).width,
            pos.1 < old(self).height,
        ensures
            final(self).wf(),
            final(self).width == old(self).width,
            final(self).height == old(self).height,
            final(self).entities == old(self).entities,
            grid_vertices(final(self).grid) == grid_vertices(old(self).grid).insert(pos),
            final(self).tiles@ == old(self).tiles@.update(
                cell_index(old(self).width as nat, pos.0 as nat, pos.1 as nat) as int,
                TileData { state: TileState::Solid, ..old(self).tiles@[cell_index(old(self).width as nat, pos.0 as nat, pos.1 as nat) as int] },
            ),
    {
        proof {
            self.lemma_area_fits();
        }
        self.grid.add_vertex(pos);
        let mut tile = self.get_tile(pos);
        tile.state = TileState::Solid;
        self.set_tile(pos, tile);
    }
}

} // verus!
