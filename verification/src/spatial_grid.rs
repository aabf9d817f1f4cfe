//! A uniform-cell spatial index over the world.
//!
//! The grid is rebuilt for each query batch rather than maintained
//! incrementally: reducers are short and already read a consistent
//! snapshot.  Cells are larger than every collision radius, so a query
//! over a cell and its eight neighbors sees every entity that can touch
//! the queried position.

use vstd::prelude::*;

use crate::player::Player;
use crate::resources::{Tree, Stone, Mushroom, PlayerCorpse};
use crate::structures::{Campfire, WoodenStorageBox, Shelter};
use crate::items::{ItemLocation, InventoryItem};
use crate::inventory::ItemStore;
use crate::{PLAYER_RADIUS, WORLD_WIDTH_PX, WORLD_HEIGHT_PX};

verus! {

/// Side length of one grid cell in pixels: four player radii, larger
/// than every collision radius in play.
pub const GRID_CELL_SIZE: u32 = PLAYER_RADIUS * 4;

/// Half extents of a shelter's collision box and the downward offset of
/// its center from the shelter's anchor position.
pub const SHELTER_AABB_HALF_WIDTH: u32 = 64;
pub const SHELTER_AABB_HALF_HEIGHT: u32 = 64;
pub const SHELTER_AABB_CENTER_Y_OFFSET: u32 = 32;

/// Number of grid columns: the world width in cells, rounded up.
pub fn grid_width() -> (r: usize)
    ensures
        r == (WORLD_WIDTH_PX + GRID_CELL_SIZE - 1) as int / GRID_CELL_SIZE as int,
{
    ((WORLD_WIDTH_PX + GRID_CELL_SIZE - 1) / GRID_CELL_SIZE) as usize
}

/// Number of grid rows: the world height in cells, rounded up.
pub fn grid_height() -> (r: usize)
    ensures
        r == (WORLD_HEIGHT_PX + GRID_CELL_SIZE - 1) as int / GRID_CELL_SIZE as int,
{
    ((WORLD_HEIGHT_PX + GRID_CELL_SIZE - 1) / GRID_CELL_SIZE) as usize
}

/// A world entity the spatial index can hold, tagged with its key.
#[derive(Clone, Copy, Debug, PartialEq, Eq, Structural)]
pub enum EntityType {
    Player(u64),
    Tree(u64),
    Stone(u64),
    Campfire(u32),
    WoodenStorageBox(u32),
    Mushroom(u32),
    DroppedItem(u64),
    Shelter(u32),
    PlayerCorpse(u32),
}

/// One cell of the grid.
#[derive(Debug)]
pub struct GridCell {
    pub entities: Vec<EntityType>,
}

/// The uniform grid of cells in row-major order.
#[derive(Debug)]
pub struct SpatialGrid {
    pub cells: Vec<GridCell>,
    pub width: usize,
    pub height: usize,
}

impl SpatialGrid {
    /// The grid's dimensions match its cell table.
    pub open spec fn wf(self) -> bool {
        &&& self.width == (WORLD_WIDTH_PX + GRID_CELL_SIZE - 1) as int / GRID_CELL_SIZE as int
        &&& self.height == (WORLD_HEIGHT_PX + GRID_CELL_SIZE - 1) as int / GRID_CELL_SIZE as int
        &&& self.cells@.len() == self.width * self.height
    }

    /// The cell index a world position falls into, if it is inside the
    /// world.
    pub open spec fn spec_cell_index(self, x: u32, y: u32) -> Option<int> {
        if x < WORLD_WIDTH_PX && y < WORLD_HEIGHT_PX {
            Some((y / GRID_CELL_SIZE) * self.width + (x / GRID_CELL_SIZE))
        } else {
            None
        }
    }

    /// The entities held by the cell of this position.
    pub open spec fn spec_entities_at(self, x: u32, y: u32) -> Seq<EntityType> {
        match self.spec_cell_index(x, y) {
            Some(i) => self.cells@[i].entities@,
            None => Seq::empty(),
        }
    }

    /// Any in-world position's cell index lies inside the cell table.
    pub proof fn lemma_cell_in_bounds(self, x: u32, y: u32)
        requires
            self.wf(),
            x < WORLD_WIDTH_PX,
            y < WORLD_HEIGHT_PX,
        ensures
            self.width == 188,
            self.height == 188,
            x / GRID_CELL_SIZE < self.width,
            y / GRID_CELL_SIZE < self.height,
            0 <= (y / GRID_CELL_SIZE) * self.width + (x / GRID_CELL_SIZE) < self.cells@.len(),
            self.spec_cell_index(x, y) == Some(
                (y / GRID_CELL_SIZE) * self.width + (x / GRID_CELL_SIZE) as int,
            ),
    {
        assert(24127int / 128int == 188int) by (nonlinear_arith);
        assert(self.width == 188 && self.height == 188);
        assert(x / GRID_CELL_SIZE < self.width && y / GRID_CELL_SIZE < self.height)
            by (nonlinear_arith)
            requires
                x < WORLD_WIDTH_PX,
                y < WORLD_HEIGHT_PX,
                GRID_CELL_SIZE == 128,
                WORLD_WIDTH_PX == 24000,
                WORLD_HEIGHT_PX == 24000,
                self.width == 188,
                self.height == 188,
        ;
        assert(0 <= (y / GRID_CELL_SIZE) * self.width + (x / GRID_CELL_SIZE)
            < self.cells@.len()) by (nonlinear_arith)
            requires
                x / GRID_CELL_SIZE < self.width,
                y / GRID_CELL_SIZE < self.height,
                self.cells@.len() == self.width * self.height,
        ;
    }

    /// An empty grid covering the whole world.
    pub fn new() -> (r: SpatialGrid)
        ensures
            r.wf(),
            forall|x: u32, y: u32| #[trigger] r.spec_entities_at(x, y) =~= Seq::<
                EntityType,
            >::empty(),
    {
        let width = grid_width();
        let height = grid_height();
        proof {
            assert(24127int / 128int == 188int) by (nonlinear_arith);
            assert(width == 188 && height == 188);
        }
        let total: usize = width * height;
        let mut cells: Vec<GridCell> = Vec::new();
        let mut i: usize = 0;
        while i < total
            invariant
                i <= total,
                cells@.len() == i,
                forall|k: int| 0 <= k < i ==> (#[trigger] cells@[k]).entities@.len() == 0,
            decreases total - i,
        {
            cells.push(GridCell { entities: Vec::new() });
            i = i + 1;
        }
        let grid = SpatialGrid { cells, width, height };
        proof {
            assert forall|x: u32, y: u32| #[trigger] grid.spec_entities_at(x, y) =~= Seq::<
                EntityType,
            >::empty() by {
                if x < WORLD_WIDTH_PX && y < WORLD_HEIGHT_PX {
                    grid.lemma_cell_in_bounds(x, y);
                }
            }
        }
        grid
    }

    /// The cell index of a world position, or `None` outside the world.
    pub fn get_cell_index(&self, x: u32, y: u32) -> (r: Option<usize>)
        requires
            self.wf(),
        ensures
            r is Some <==> x < WORLD_WIDTH_PX && y < WORLD_HEIGHT_PX,
            r is Some ==> Some(r->Some_0 as int) == self.spec_cell_index(x, y) && r->Some_0
                < self.cells@.len(),
    {
        if x >= WORLD_WIDTH_PX || y >= WORLD_HEIGHT_PX {
            return None;
        }
        let cell_x: usize = (x / GRID_CELL_SIZE) as usize;
        let cell_y: usize = (y / GRID_CELL_SIZE) as usize;
        proof {
            self.lemma_cell_in_bounds(x, y);
        }
        Some(cell_y * self.width + cell_x)
    }

    /// Empties every cell.
    pub fn clear(&mut self)
        requires
            old(self).wf(),
        ensures
            final(self).wf(),
            final(self).width == old(self).width,
            forall|x: u32, y: u32| #[trigger] final(self).spec_entities_at(x, y) =~= Seq::<
                EntityType,
            >::empty(),
    {
        let n: usize = self.cells.len();
        let mut i: usize = 0;
        while i < n
            invariant
                n == self.cells@.len(),
                i <= n,
                self.wf(),
                self.width == old(self).width,
                self.height == old(self).height,
                forall|k: int| 0 <= k < i ==> (#[trigger] self.cells@[k]).entities@.len() == 0,
            decreases n - i,
        {
            let cell = &mut self.cells[i];
            cell.entities.clear();
            i = i + 1;
        }
        proof {
            assert forall|x: u32, y: u32| #[trigger] self.spec_entities_at(x, y) =~= Seq::<
                EntityType,
            >::empty() by {
                if x < WORLD_WIDTH_PX && y < WORLD_HEIGHT_PX {
                    self.lemma_cell_in_bounds(x, y);
                }
            }
        }
    }

    /// Inserts an entity at its position; positions outside the world are
    /// ignored.
    pub fn add_entity(&mut self, entity_type: EntityType, x: u32, y: u32)
        requires
            old(self).wf(),
        ensures
            final(self).wf(),
            final(self).width == old(self).width,
            x < WORLD_WIDTH_PX && y < WORLD_HEIGHT_PX ==> final(self).spec_entities_at(x, y)
                == old(self).spec_entities_at(x, y).push(entity_type),
            !(x < WORLD_WIDTH_PX && y < WORLD_HEIGHT_PX) ==> *final(self) == *old(self),
            forall|x2: u32, y2: u32|
                #[trigger] final(self).spec_cell_index(x2, y2) != final(self).spec_cell_index(x, y)
                    ==> final(self).spec_entities_at(x2, y2) == old(self).spec_entities_at(x2, y2),
    {
        match self.get_cell_index(x, y) {
            Some(index) => {
                let ghost pre = *self;
                let cell = &mut self.cells[index];
                cell.entities.push(entity_type);
                proof {
                    assert forall|x2: u32, y2: u32|
                        #[trigger] self.spec_cell_index(x2, y2) != self.spec_cell_index(x, y)
                        implies self.spec_entities_at(x2, y2) == pre.spec_entities_at(x2, y2) by {
                        if x2 < WORLD_WIDTH_PX && y2 < WORLD_HEIGHT_PX {
                            self.lemma_cell_in_bounds(x2, y2);
                        }
                    }
                }
            },
            None => {},
        }
    }

    /// The entities in the cell containing the given position; empty
    /// outside the world.
    pub fn get_entities_at(&self, x: u32, y: u32) -> (r: Vec<EntityType>)
        requires
            self.wf(),
        ensures
            r@ == self.spec_entities_at(x, y),
    {
        match self.get_cell_index(x, y) {
            Some(index) => {
                let cell = &self.cells[index];
                let mut out: Vec<EntityType> = Vec::new();
                let n: usize = cell.entities.len();
                let mut i: usize = 0;
                while i < n
                    invariant
                        n == cell.entities@.len(),
                        i <= n,
                        out@ == cell.entities@.subrange(0, i as int),
                    decreases n - i,
                {
                    out.push(cell.entities[i]);
                    proof {
                        assert(out@ =~= cell.entities@.subrange(0, i + 1));
                    }
                    i = i + 1;
                }
                proof {
                    assert(out@ =~= cell.entities@);
                }
                out
            },
            None => Vec::new(),
        }
    }

    /// The entities in the cell of the given position and its eight
    /// neighbors.  Every entity of the center cell is included, so any
    /// point-indexed entity sharing the queried position is found.
    #[verifier::loop_isolation(false)]
    pub fn get_entities_in_range(&self, x: u32, y: u32) -> (r: Vec<EntityType>)
        requires
            self.wf(),
        ensures
            forall|e: EntityType|
                self.spec_entities_at(x, y).contains(e) ==> #[trigger] r@.contains(e),
            x < WORLD_WIDTH_PX && y < WORLD_HEIGHT_PX ==> forall|x2: u32, y2: u32, e: EntityType|
                x2 < WORLD_WIDTH_PX && y2 < WORLD_HEIGHT_PX && x / GRID_CELL_SIZE <= x2
                    / GRID_CELL_SIZE + 1 && x2 / GRID_CELL_SIZE <= x / GRID_CELL_SIZE + 1 && y
                    / GRID_CELL_SIZE <= y2 / GRID_CELL_SIZE + 1 && y2 / GRID_CELL_SIZE <= y
                    / GRID_CELL_SIZE + 1 && #[trigger] self.spec_entities_at(x2, y2).contains(e)
                    ==> r@.contains(e),
            !(x < WORLD_WIDTH_PX && y < WORLD_HEIGHT_PX) ==> r@.len() == 0,
            // Conversely, everything returned comes from the queried
            // 3-by-3 cell neighborhood.
            forall|e: EntityType|
                #[trigger] r@.contains(e) ==> exists|c2: int, r2: int|
                    0 <= c2 < 188 && 0 <= r2 < 188 && x / GRID_CELL_SIZE <= c2 + 1 && c2 <= x
                        / GRID_CELL_SIZE + 1 && y / GRID_CELL_SIZE <= r2 + 1 && r2 <= y
                        / GRID_CELL_SIZE + 1 && #[trigger] self.spec_entities_at(
                        (c2 * GRID_CELL_SIZE) as u32,
                        (r2 * GRID_CELL_SIZE) as u32,
                    ).contains(e),
    {
        let mut result: Vec<EntityType> = Vec::new();
        if x >= WORLD_WIDTH_PX || y >= WORLD_HEIGHT_PX {
            proof {
                assert forall|e: EntityType| !(#[trigger] result@.contains(e)) by {}
            }
            return result;
        }
        let cell_x: usize = (x / GRID_CELL_SIZE) as usize;
        let cell_y: usize = (y / GRID_CELL_SIZE) as usize;
        proof {
            assert(cell_x < self.width && cell_y < self.height) by (nonlinear_arith)
                requires
                    x < WORLD_WIDTH_PX,
                    y < WORLD_HEIGHT_PX,
                    GRID_CELL_SIZE == 128,
                    WORLD_WIDTH_PX == 24000,
                    WORLD_HEIGHT_PX == 24000,
                    self.width == 188,
                    self.height == 188,
                    cell_x == x / GRID_CELL_SIZE,
                    cell_y == y / GRID_CELL_SIZE,
            ;
        }
        let x_lo: usize = if cell_x > 0 {
            cell_x - 1
        } else {
            0
        };
        let x_hi: usize = if cell_x + 1 < self.width {
            cell_x + 1
        } else {
            self.width - 1
        };
        let y_lo: usize = if cell_y > 0 {
            cell_y - 1
        } else {
            0
        };
        let y_hi: usize = if cell_y + 1 < self.height {
            cell_y + 1
        } else {
            self.height - 1
        };
        proof {
            self.lemma_cell_in_bounds(x, y);
        }
        let mut ny: usize = y_lo;
        while ny <= y_hi
            invariant
                self.wf(),
                y_lo <= ny,
                y_hi < self.height,
                x_lo <= cell_x <= x_hi,
                x_hi < self.width,
                y_lo <= cell_y <= y_hi,
                cell_y * self.width + cell_x < self.cells@.len(),
                ny > cell_y ==> forall|e: EntityType|
                    self.cells@[cell_y * self.width + cell_x].entities@.contains(e)
                        ==> #[trigger] result@.contains(e),
                forall|cy2: int, cx2: int, e: EntityType|
                    y_lo <= cy2 < ny && x_lo <= cx2 <= x_hi && #[trigger] self.cells@[cy2
                        * self.width + cx2].entities@.contains(e) ==> result@.contains(e),
                forall|e: EntityType|
                    #[trigger] result@.contains(e) ==> exists|c2: int, r2: int|
                        x_lo <= c2 <= x_hi && y_lo <= r2 <= y_hi
                            && #[trigger] self.spec_entities_at(
                            (c2 * GRID_CELL_SIZE) as u32,
                            (r2 * GRID_CELL_SIZE) as u32,
                        ).contains(e),
            decreases y_hi + 1 - ny,
        {
            let mut nx: usize = x_lo;
            while nx <= x_hi
                invariant
                    self.wf(),
                    x_lo <= nx,
                    x_hi < self.width,
                    ny <= y_hi,
                    y_hi < self.height,
                    x_lo <= cell_x <= x_hi,
                    y_lo <= cell_y <= y_hi,
                    cell_y * self.width + cell_x < self.cells@.len(),
                    (ny > cell_y || (ny == cell_y && nx > cell_x)) ==> forall|e: EntityType|
                        self.cells@[cell_y * self.width + cell_x].entities@.contains(e)
                            ==> #[trigger] result@.contains(e),
                    forall|cy2: int, cx2: int, e: EntityType|
                        y_lo <= cy2 < ny && x_lo <= cx2 <= x_hi && #[trigger] self.cells@[cy2
                            * self.width + cx2].entities@.contains(e) ==> result@.contains(e),
                    forall|cx2: int, e: EntityType|
                        x_lo <= cx2 < nx && #[trigger] self.cells@[ny * self.width
                            + cx2].entities@.contains(e) ==> result@.contains(e),
                    forall|e: EntityType|
                        #[trigger] result@.contains(e) ==> exists|c2: int, r2: int|
                            x_lo <= c2 <= x_hi && y_lo <= r2 <= y_hi
                                && #[trigger] self.spec_entities_at(
                                (c2 * GRID_CELL_SIZE) as u32,
                                (r2 * GRID_CELL_SIZE) as u32,
                            ).contains(e),
                decreases x_hi + 1 - nx,
            {
                proof {
                    self.lemma_cell_in_bounds(x, y);
                    assert(ny * self.width + nx < self.cells@.len()) by (nonlinear_arith)
                        requires
                            nx < self.width,
                            ny < self.height,
                            self.cells@.len() == self.width * self.height,
                    ;
                }
                let index: usize = ny * self.width + nx;
                let cell = &self.cells[index];
                let ghost pre_result = result@;
                let n: usize = cell.entities.len();
                let mut i: usize = 0;
                while i < n
                    invariant
                        n == cell.entities@.len(),
                        i <= n,
                        forall|e: EntityType|
                            pre_result.contains(e) ==> #[trigger] result@.contains(e),
                        forall|k: int|
                            0 <= k < i ==> result@.contains(#[trigger] cell.entities@[k]),
                        forall|e: EntityType|
                            #[trigger] result@.contains(e) ==> pre_result.contains(e)
                                || cell.entities@.contains(e),
                    decreases n - i,
                {
                    let ghost before = result@;
                    result.push(cell.entities[i]);
                    proof {
                        assert(result@[result@.len() - 1] == cell.entities@[i as int]);
                        assert forall|e: EntityType|
                            before.contains(e) implies #[trigger] result@.contains(e) by {
                            let k = choose|k: int| 0 <= k < before.len() && before[k] == e;
                            assert(result@[k] == e);
                        }
                        assert forall|k: int|
                            0 <= k < i + 1 implies result@.contains(
                            #[trigger] cell.entities@[k],
                        ) by {
                            if k < i {
                                assert(before.contains(cell.entities@[k]));
                            } else {
                                assert(result@[result@.len() - 1] == cell.entities@[k]);
                            }
                        }
                        assert forall|e: EntityType|
                            #[trigger] result@.contains(e) implies before.contains(e)
                                || cell.entities@.contains(e) by {
                            let k = choose|k: int| 0 <= k < result@.len() && result@[k] == e;
                            if k < before.len() {
                                assert(before[k] == e);
                            } else {
                                assert(cell.entities@[i as int] == e);
                            }
                        }
                    }
                    i = i + 1;
                }
                proof {
                    if ny == cell_y && nx == cell_x {
                        assert forall|e: EntityType|
                            self.cells@[cell_y * self.width + cell_x].entities@.contains(e)
                            implies #[trigger] result@.contains(e) by {
                            let k = choose|k: int|
                                0 <= k < cell.entities@.len() && cell.entities@[k] == e;
                            assert(result@.contains(cell.entities@[k]));
                        }
                    }
                    assert forall|cx2: int, e: EntityType|
                        x_lo <= cx2 < nx + 1 && #[trigger] self.cells@[ny * self.width
                            + cx2].entities@.contains(e) implies result@.contains(e) by {
                        if cx2 == nx as int {
                            let k = choose|k: int|
                                0 <= k < cell.entities@.len() && cell.entities@[k] == e;
                            assert(result@.contains(cell.entities@[k]));
                        }
                    }
                    // Provenance: everything returned so far came from a
                    // cell of the neighborhood, including this one.
                    assert(spec_pos_cell((nx * GRID_CELL_SIZE) as u32, (ny * GRID_CELL_SIZE) as u32)
                        == ny * self.width + nx) by (nonlinear_arith)
                        requires
                            nx < self.width,
                            ny < self.height,
                            self.width == 188,
                            self.height == 188,
                            GRID_CELL_SIZE == 128,
                    ;
                    self.lemma_cell_in_bounds((nx * GRID_CELL_SIZE) as u32, (ny * GRID_CELL_SIZE) as u32);
                    assert(self.spec_entities_at(
                        (nx * GRID_CELL_SIZE) as u32,
                        (ny * GRID_CELL_SIZE) as u32,
                    ) == self.cells@[ny * self.width + nx].entities@);
                    assert forall|e: EntityType| #[trigger] result@.contains(e) implies exists|
                        c2: int,
                        r2: int,
                    |
                        x_lo <= c2 <= x_hi && y_lo <= r2 <= y_hi && #[trigger] self
                            .spec_entities_at(
                            (c2 * GRID_CELL_SIZE) as u32,
                            (r2 * GRID_CELL_SIZE) as u32,
                        ).contains(e) by {
                        if !pre_result.contains(e) {
                            assert(self.spec_entities_at(
                                (nx as int * GRID_CELL_SIZE) as u32,
                                (ny as int * GRID_CELL_SIZE) as u32,
                            ).contains(e));
                        }
                    }
                }
                nx = nx + 1;
            }
            proof {
                assert forall|cy2: int, cx2: int, e: EntityType|
                    y_lo <= cy2 < ny + 1 && x_lo <= cx2 <= x_hi && #[trigger] self.cells@[cy2
                        * self.width + cx2].entities@.contains(e) implies result@.contains(e) by {
                    if cy2 == ny as int {
                        assert(self.cells@[ny * self.width + cx2].entities@.contains(e));
                    }
                }
            }
            ny = ny + 1;
        }
        proof {
            assert(self.spec_cell_index(x, y) == Some(cell_y * self.width + cell_x as int));
            assert forall|x2: u32, y2: u32, e: EntityType|
                x2 < WORLD_WIDTH_PX && y2 < WORLD_HEIGHT_PX && x / GRID_CELL_SIZE <= x2
                    / GRID_CELL_SIZE + 1 && x2 / GRID_CELL_SIZE <= x / GRID_CELL_SIZE + 1 && y
                    / GRID_CELL_SIZE <= y2 / GRID_CELL_SIZE + 1 && y2 / GRID_CELL_SIZE <= y
                    / GRID_CELL_SIZE + 1 && #[trigger] self.spec_entities_at(x2, y2).contains(e)
                implies result@.contains(e) by {
                self.lemma_cell_in_bounds(x2, y2);
                let cx2 = (x2 / GRID_CELL_SIZE) as int;
                let cy2 = (y2 / GRID_CELL_SIZE) as int;
                assert(x_lo <= cx2 <= x_hi);
                assert(y_lo <= cy2 <= y_hi);
                assert(self.cells@[cy2 * self.width + cx2].entities@.contains(e));
            }
        }
        result
    }
}

impl Default for SpatialGrid {
    /// The default grid is the empty world-sized grid.
    fn default() -> (r: Self)
        ensures
            r.wf(),
    {
        SpatialGrid::new()
    }
}

/// Whether every entity indexed by `a` is still indexed at the same
/// position by `b`: rebuilding only ever inserts.
pub open spec fn grid_mono(a: SpatialGrid, b: SpatialGrid) -> bool {
    forall|x: u32, y: u32, e: EntityType|
        #[trigger] a.spec_entities_at(x, y).contains(e) ==> b.spec_entities_at(x, y).contains(e)
}

/// The row-major cell index of an in-world pixel position, over the
/// fixed world-sized grid.
pub open spec fn spec_pos_cell(x: u32, y: u32) -> int {
    (y / GRID_CELL_SIZE) * 188 + (x / GRID_CELL_SIZE)
}

/// Whether an entity indexed at the queried position corresponds to a
/// live row of its source table *at that position*: a living player, a
/// standing tree or stone, a placed campfire, box, mushroom or corpse,
/// or a ground item stack, each in the cell of its own in-world
/// position; a standing shelter in some cell of its collision-box
/// window.
pub open spec fn spec_indexed_entity_live(
    players: Seq<Player>,
    trees: Seq<Tree>,
    stones: Seq<Stone>,
    campfires: Seq<Campfire>,
    boxes: Seq<WoodenStorageBox>,
    mushrooms: Seq<Mushroom>,
    corpses: Seq<PlayerCorpse>,
    shelters: Seq<Shelter>,
    items: Seq<InventoryItem>,
    e: EntityType,
    qx: u32,
    qy: u32,
) -> bool {
    match e {
        EntityType::Player(id) => exists|k: int|
            0 <= k < players.len() && (#[trigger] players[k]).identity == id && !players[k].is_dead
                && players[k].position_x < WORLD_WIDTH_PX && players[k].position_y
                < WORLD_HEIGHT_PX && spec_pos_cell(qx, qy) == spec_pos_cell(
                players[k].position_x,
                players[k].position_y,
            ),
        EntityType::Tree(id) => exists|k: int|
            0 <= k < trees.len() && (#[trigger] trees[k]).id == id && trees[k].health > 0
                && trees[k].pos_x < WORLD_WIDTH_PX && trees[k].pos_y < WORLD_HEIGHT_PX
                && spec_pos_cell(qx, qy) == spec_pos_cell(trees[k].pos_x, trees[k].pos_y),
        EntityType::Stone(id) => exists|k: int|
            0 <= k < stones.len() && (#[trigger] stones[k]).id == id && stones[k].health > 0
                && stones[k].pos_x < WORLD_WIDTH_PX && stones[k].pos_y < WORLD_HEIGHT_PX
                && spec_pos_cell(qx, qy) == spec_pos_cell(stones[k].pos_x, stones[k].pos_y),
        EntityType::Campfire(id) => exists|k: int|
            0 <= k < campfires.len() && (#[trigger] campfires[k]).id == id && campfires[k].pos_x
                < WORLD_WIDTH_PX && campfires[k].pos_y < WORLD_HEIGHT_PX && spec_pos_cell(qx, qy)
                == spec_pos_cell(campfires[k].pos_x, campfires[k].pos_y),
        EntityType::WoodenStorageBox(id) => exists|k: int|
            0 <= k < boxes.len() && (#[trigger] boxes[k]).id == id && boxes[k].pos_x
                < WORLD_WIDTH_PX && boxes[k].pos_y < WORLD_HEIGHT_PX && spec_pos_cell(qx, qy)
                == spec_pos_cell(boxes[k].pos_x, boxes[k].pos_y),
        EntityType::Mushroom(id) => exists|k: int|
            0 <= k < mushrooms.len() && (#[trigger] mushrooms[k]).id == id && mushrooms[k].pos_x
                < WORLD_WIDTH_PX && mushrooms[k].pos_y < WORLD_HEIGHT_PX && spec_pos_cell(qx, qy)
                == spec_pos_cell(mushrooms[k].pos_x, mushrooms[k].pos_y),
        EntityType::DroppedItem(id) => exists|k: int|
            0 <= k < items.len() && (#[trigger] items[k]).instance_id == id && match items[
            k].location {
                ItemLocation::Ground { x, y } => x < WORLD_WIDTH_PX && y < WORLD_HEIGHT_PX
                    && spec_pos_cell(qx, qy) == spec_pos_cell(x, y),
                _ => false,
            },
        EntityType::Shelter(id) => exists|k: int|
            0 <= k < shelters.len() && (#[trigger] shelters[k]).id == id
                && !shelters[k].is_destroyed && shelters[k].pos_x < WORLD_WIDTH_PX
                && spec_shelter_center_y(shelters[k]) < WORLD_HEIGHT_PX && exists|c2: int, r2: int|
                spec_shelter_cell_window(shelters[k]).0 <= c2 <= spec_shelter_cell_window(
                    shelters[k],
                ).1 && spec_shelter_cell_window(shelters[k]).2 <= r2 <= spec_shelter_cell_window(
                    shelters[k],
                ).3 && #[trigger] (r2 * 188 + c2) == spec_pos_cell(qx, qy),
        EntityType::PlayerCorpse(id) => exists|k: int|
            0 <= k < corpses.len() && (#[trigger] corpses[k]).id == id && corpses[k].pos_x
                < WORLD_WIDTH_PX && corpses[k].pos_y < WORLD_HEIGHT_PX && spec_pos_cell(qx, qy)
                == spec_pos_cell(corpses[k].pos_x, corpses[k].pos_y),
    }
}

/// Every entity the grid indexes anywhere corresponds to a live source
/// row, so a rebuilt grid never holds stale entries.
pub open spec fn grid_entries_live(
    g: SpatialGrid,
    players: Seq<Player>,
    trees: Seq<Tree>,
    stones: Seq<Stone>,
    campfires: Seq<Campfire>,
    boxes: Seq<WoodenStorageBox>,
    mushrooms: Seq<Mushroom>,
    corpses: Seq<PlayerCorpse>,
    shelters: Seq<Shelter>,
    items: Seq<InventoryItem>,
) -> bool {
    forall|x: u32, y: u32, e: EntityType|
        #[trigger] g.spec_entities_at(x, y).contains(e) ==> spec_indexed_entity_live(
            players,
            trees,
            stones,
            campfires,
            boxes,
            mushrooms,
            corpses,
            shelters,
            items,
            e,
            x,
            y,
        )
}

/// The vertical center of a shelter's collision box, clamped at zero.
pub open spec fn spec_shelter_center_y(sh: Shelter) -> u32 {
    if sh.pos_y >= SHELTER_AABB_CENTER_Y_OFFSET {
        (sh.pos_y - SHELTER_AABB_CENTER_Y_OFFSET) as u32
    } else {
        0u32
    }
}

/// The window of cell coordinates a shelter's collision box overlaps,
/// as (first column, last column, first row, last row), with the box
/// clamped to the world.
pub open spec fn spec_shelter_cell_window(sh: Shelter) -> (int, int, int, int) {
    let cy0 = spec_shelter_center_y(sh);
    let left = if sh.pos_x >= SHELTER_AABB_HALF_WIDTH {
        sh.pos_x - SHELTER_AABB_HALF_WIDTH
    } else {
        0int
    };
    let right = if sh.pos_x + SHELTER_AABB_HALF_WIDTH < WORLD_WIDTH_PX {
        (sh.pos_x + SHELTER_AABB_HALF_WIDTH) as int
    } else {
        (WORLD_WIDTH_PX - 1) as int
    };
    let top = if cy0 >= SHELTER_AABB_HALF_HEIGHT {
        cy0 - SHELTER_AABB_HALF_HEIGHT
    } else {
        0int
    };
    let bottom = if cy0 + SHELTER_AABB_HALF_HEIGHT < WORLD_HEIGHT_PX {
        (cy0 + SHELTER_AABB_HALF_HEIGHT) as int
    } else {
        (WORLD_HEIGHT_PX - 1) as int
    };
    (
        left / (GRID_CELL_SIZE as int),
        right / (GRID_CELL_SIZE as int),
        top / (GRID_CELL_SIZE as int),
        bottom / (GRID_CELL_SIZE as int),
    )
}

impl SpatialGrid {
    /// Inserting an entity keeps everything already indexed in place.
    proof fn lemma_add_mono(pre: SpatialGrid, post: SpatialGrid, x: u32, y: u32, e: EntityType)
        requires
            pre.wf(),
            post.wf(),
            post.width == pre.width,
            x < WORLD_WIDTH_PX && y < WORLD_HEIGHT_PX ==> post.spec_entities_at(x, y)
                == pre.spec_entities_at(x, y).push(e),
            !(x < WORLD_WIDTH_PX && y < WORLD_HEIGHT_PX) ==> post == pre,
            forall|x2: u32, y2: u32|
                #[trigger] post.spec_cell_index(x2, y2) != post.spec_cell_index(x, y)
                    ==> post.spec_entities_at(x2, y2) == pre.spec_entities_at(x2, y2),
        ensures
            grid_mono(pre, post),
    {
        assert forall|x2: u32, y2: u32, e2: EntityType|
            #[trigger] pre.spec_entities_at(x2, y2).contains(e2) implies post.spec_entities_at(
            x2,
            y2,
        ).contains(e2) by {
            if post.spec_cell_index(x2, y2) == post.spec_cell_index(x, y) && x < WORLD_WIDTH_PX
                && y < WORLD_HEIGHT_PX {
                assert(pre.spec_entities_at(x2, y2) == pre.spec_entities_at(x, y));
                let k = choose|k: int|
                    0 <= k < pre.spec_entities_at(x, y).len() && pre.spec_entities_at(x, y)[k]
                        == e2;
                assert(post.spec_entities_at(x, y)[k] == e2);
                assert(post.spec_entities_at(x2, y2).contains(e2));
            }
        }
    }

    /// Indexes one standing shelter into every cell its collision box
    /// overlaps, anchored at the box center; a destroyed or out-of-world
    /// shelter changes nothing.
    #[verifier::loop_isolation(false)]
    pub fn index_shelter(&mut self, sh: &Shelter)
        requires
            old(self).wf(),
        ensures
            final(self).wf(),
            final(self).width == old(self).width,
            grid_mono(*old(self), *final(self)),
            forall|x2: u32, y2: u32, e2: EntityType|
                #[trigger] final(self).spec_entities_at(x2, y2).contains(e2) ==> old(
                    self,
                ).spec_entities_at(x2, y2).contains(e2) || (e2 == EntityType::Shelter(sh.id)
                    && !sh.is_destroyed && sh.pos_x < WORLD_WIDTH_PX && spec_shelter_center_y(*sh)
                    < WORLD_HEIGHT_PX && exists|c2: int, r2: int|
                    spec_shelter_cell_window(*sh).0 <= c2 <= spec_shelter_cell_window(*sh).1
                        && spec_shelter_cell_window(*sh).2 <= r2 <= spec_shelter_cell_window(
                        *sh,
                    ).3 && #[trigger] (r2 * 188 + c2) == spec_pos_cell(x2, y2)),
            !sh.is_destroyed && sh.pos_x < WORLD_WIDTH_PX && spec_shelter_center_y(*sh)
                < WORLD_HEIGHT_PX ==> {
                &&& forall|c2: int, r2: int|
                    spec_shelter_cell_window(*sh).0 <= c2 <= spec_shelter_cell_window(*sh).1
                        && spec_shelter_cell_window(*sh).2 <= r2 <= spec_shelter_cell_window(
                        *sh,
                    ).3 ==> #[trigger] final(self).spec_entities_at(
                        (c2 * GRID_CELL_SIZE) as u32,
                        (r2 * GRID_CELL_SIZE) as u32,
                    ).contains(EntityType::Shelter(sh.id))
                &&& final(self).spec_entities_at(
                    sh.pos_x,
                    spec_shelter_center_y(*sh),
                ).contains(EntityType::Shelter(sh.id))
            },
    {
        let cy0: u32 = if sh.pos_y >= SHELTER_AABB_CENTER_Y_OFFSET {
            sh.pos_y - SHELTER_AABB_CENTER_Y_OFFSET
        } else {
            0
        };
        if !(!sh.is_destroyed && sh.pos_x < WORLD_WIDTH_PX && cy0 < WORLD_HEIGHT_PX) {
            return ;
        }
        let left: u32 = if sh.pos_x >= SHELTER_AABB_HALF_WIDTH {
            sh.pos_x - SHELTER_AABB_HALF_WIDTH
        } else {
            0
        };
        let right: u32 = if sh.pos_x + SHELTER_AABB_HALF_WIDTH < WORLD_WIDTH_PX {
            sh.pos_x + SHELTER_AABB_HALF_WIDTH
        } else {
            WORLD_WIDTH_PX - 1
        };
        let top: u32 = if cy0 >= SHELTER_AABB_HALF_HEIGHT {
            cy0 - SHELTER_AABB_HALF_HEIGHT
        } else {
            0
        };
        let bottom: u32 = if cy0 + SHELTER_AABB_HALF_HEIGHT < WORLD_HEIGHT_PX {
            cy0 + SHELTER_AABB_HALF_HEIGHT
        } else {
            WORLD_HEIGHT_PX - 1
        };
        let cxl: u32 = left / GRID_CELL_SIZE;
        let cxr: u32 = right / GRID_CELL_SIZE;
        let cyt: u32 = top / GRID_CELL_SIZE;
        let cyb: u32 = bottom / GRID_CELL_SIZE;
        proof {
            vstd::arithmetic::div_mod::lemma_div_is_ordered(
                left as int,
                right as int,
                GRID_CELL_SIZE as int,
            );
            vstd::arithmetic::div_mod::lemma_div_is_ordered(
                top as int,
                bottom as int,
                GRID_CELL_SIZE as int,
            );
            assert(cxr <= 187 && cyb <= 187) by (nonlinear_arith)
                requires
                    cxr == right / GRID_CELL_SIZE,
                    cyb == bottom / GRID_CELL_SIZE,
                    right < WORLD_WIDTH_PX,
                    bottom < WORLD_HEIGHT_PX,
                    GRID_CELL_SIZE == 128,
                    WORLD_WIDTH_PX == 24000,
                    WORLD_HEIGHT_PX == 24000,
            ;
        }
        let mut r2: u32 = cyt;
        while r2 <= cyb
            invariant
                self.wf(),
                self.width == old(self).width,
                grid_mono(*old(self), *self),
                cyt <= r2,
                forall|c3: int, r3: int|
                    cxl <= c3 <= cxr && cyt <= r3 < r2 ==> #[trigger] self.spec_entities_at(
                        (c3 * GRID_CELL_SIZE) as u32,
                        (r3 * GRID_CELL_SIZE) as u32,
                    ).contains(EntityType::Shelter(sh.id)),
                forall|x2: u32, y2: u32, e2: EntityType|
                    #[trigger] self.spec_entities_at(x2, y2).contains(e2) ==> old(
                        self,
                    ).spec_entities_at(x2, y2).contains(e2) || (e2 == EntityType::Shelter(sh.id)
                        && exists|c3: int, r3: int|
                        spec_shelter_cell_window(*sh).0 <= c3 <= spec_shelter_cell_window(*sh).1
                            && spec_shelter_cell_window(*sh).2 <= r3 <= spec_shelter_cell_window(
                            *sh,
                        ).3 && #[trigger] (r3 * 188 + c3) == spec_pos_cell(x2, y2)),
            decreases cyb + 1 - r2,
        {
            let mut c2: u32 = cxl;
            while c2 <= cxr
                invariant
                    self.wf(),
                    self.width == old(self).width,
                    grid_mono(*old(self), *self),
                    cxl <= c2,
                    r2 <= cyb,
                    forall|c3: int|
                        cxl <= c3 < c2 ==> #[trigger] self.spec_entities_at(
                            (c3 * GRID_CELL_SIZE) as u32,
                            (r2 * GRID_CELL_SIZE) as u32,
                        ).contains(EntityType::Shelter(sh.id)),
                    forall|c3: int, r3: int|
                        cxl <= c3 <= cxr && cyt <= r3 < r2 ==> #[trigger] self.spec_entities_at(
                            (c3 * GRID_CELL_SIZE) as u32,
                            (r3 * GRID_CELL_SIZE) as u32,
                        ).contains(EntityType::Shelter(sh.id)),
                    forall|x2: u32, y2: u32, e2: EntityType|
                        #[trigger] self.spec_entities_at(x2, y2).contains(e2) ==> old(
                            self,
                        ).spec_entities_at(x2, y2).contains(e2) || (e2 == EntityType::Shelter(
                            sh.id,
                        ) && exists|c3: int, r3: int|
                            spec_shelter_cell_window(*sh).0 <= c3 <= spec_shelter_cell_window(
                                *sh,
                            ).1 && spec_shelter_cell_window(*sh).2 <= r3
                                <= spec_shelter_cell_window(*sh).3 && #[trigger] (r3 * 188 + c3)
                                == spec_pos_cell(x2, y2)),
                decreases cxr + 1 - c2,
            {
                let px: u32 = c2 * GRID_CELL_SIZE;
                let py: u32 = r2 * GRID_CELL_SIZE;
                let ghost pre = *self;
                self.add_entity(EntityType::Shelter(sh.id), px, py);
                proof {
                    Self::lemma_add_mono(pre, *self, px, py, EntityType::Shelter(sh.id));
                    Self::lemma_add_grow(pre, *self, px, py, EntityType::Shelter(sh.id));
                    let s = self.spec_entities_at(px, py);
                    assert(s[s.len() - 1] == EntityType::Shelter(sh.id));
                    assert(spec_pos_cell(px, py) == r2 * 188 + c2) by (nonlinear_arith)
                        requires
                            c2 <= 187,
                            r2 <= 187,
                            px == c2 * GRID_CELL_SIZE,
                            py == r2 * GRID_CELL_SIZE,
                            GRID_CELL_SIZE == 128,
                    ;
                }
                c2 = c2 + 1;
            }
            r2 = r2 + 1;
        }
        proof {
            // The box center lies within the cell window, so the
            // anchor-cell guarantee follows from the window one.
            vstd::arithmetic::div_mod::lemma_div_is_ordered(
                left as int,
                sh.pos_x as int,
                GRID_CELL_SIZE as int,
            );
            vstd::arithmetic::div_mod::lemma_div_is_ordered(
                sh.pos_x as int,
                right as int,
                GRID_CELL_SIZE as int,
            );
            vstd::arithmetic::div_mod::lemma_div_is_ordered(
                top as int,
                cy0 as int,
                GRID_CELL_SIZE as int,
            );
            vstd::arithmetic::div_mod::lemma_div_is_ordered(
                cy0 as int,
                bottom as int,
                GRID_CELL_SIZE as int,
            );
            let cc = (sh.pos_x / GRID_CELL_SIZE) as int;
            let cr = (cy0 / GRID_CELL_SIZE) as int;
            assert(self.spec_entities_at(
                (cc * GRID_CELL_SIZE) as u32,
                (cr * GRID_CELL_SIZE) as u32,
            ).contains(EntityType::Shelter(sh.id)));
            assert((cc * GRID_CELL_SIZE) as u32 / GRID_CELL_SIZE == cc && (cr * GRID_CELL_SIZE)
                as u32 / GRID_CELL_SIZE == cr) by (nonlinear_arith)
                requires
                    0 <= cc <= 187,
                    0 <= cr <= 187,
                    GRID_CELL_SIZE == 128,
            ;
            self.lemma_cell_in_bounds(sh.pos_x, cy0);
            self.lemma_cell_in_bounds((cc * GRID_CELL_SIZE) as u32, (cr * GRID_CELL_SIZE) as u32);
            assert(self.spec_entities_at(sh.pos_x, cy0).contains(EntityType::Shelter(sh.id)));
        }
    }

    /// Inserting an entity adds nothing else: anything indexed after is
    /// either indexed where it was before, or is the inserted entity in
    /// the cell of the insertion position.
    proof fn lemma_add_grow(pre: SpatialGrid, post: SpatialGrid, x: u32, y: u32, e: EntityType)
        requires
            pre.wf(),
            post.wf(),
            post.width == pre.width,
            x < WORLD_WIDTH_PX && y < WORLD_HEIGHT_PX ==> post.spec_entities_at(x, y)
                == pre.spec_entities_at(x, y).push(e),
            !(x < WORLD_WIDTH_PX && y < WORLD_HEIGHT_PX) ==> post == pre,
            forall|x2: u32, y2: u32|
                #[trigger] post.spec_cell_index(x2, y2) != post.spec_cell_index(x, y)
                    ==> post.spec_entities_at(x2, y2) == pre.spec_entities_at(x2, y2),
        ensures
            forall|x2: u32, y2: u32, e2: EntityType|
                #[trigger] post.spec_entities_at(x2, y2).contains(e2) ==> pre.spec_entities_at(
                    x2,
                    y2,
                ).contains(e2) || (e2 == e && x < WORLD_WIDTH_PX && y < WORLD_HEIGHT_PX && x2
                    < WORLD_WIDTH_PX && y2 < WORLD_HEIGHT_PX && spec_pos_cell(x2, y2)
                    == spec_pos_cell(x, y)),
    {
        assert forall|x2: u32, y2: u32, e2: EntityType|
            #[trigger] post.spec_entities_at(x2, y2).contains(e2) implies pre.spec_entities_at(
            x2,
            y2,
        ).contains(e2) || (e2 == e && x < WORLD_WIDTH_PX && y < WORLD_HEIGHT_PX && x2
            < WORLD_WIDTH_PX && y2 < WORLD_HEIGHT_PX && spec_pos_cell(x2, y2) == spec_pos_cell(
            x,
            y,
        )) by {
            if post.spec_cell_index(x2, y2) == post.spec_cell_index(x, y) && x < WORLD_WIDTH_PX
                && y < WORLD_HEIGHT_PX {
                assert(post.spec_entities_at(x2, y2) == post.spec_entities_at(x, y));
                let k = choose|k: int|
                    0 <= k < post.spec_entities_at(x, y).len() && post.spec_entities_at(x, y)[k]
                        == e2;
                if k < post.spec_entities_at(x, y).len() - 1 {
                    assert(pre.spec_entities_at(x, y)[k] == e2);
                    assert(pre.spec_entities_at(x2, y2).contains(e2));
                } else {
                    if x2 < WORLD_WIDTH_PX && y2 < WORLD_HEIGHT_PX {
                        post.lemma_cell_in_bounds(x2, y2);
                        post.lemma_cell_in_bounds(x, y);
                    } else {
                        assert(post.spec_entities_at(x2, y2) =~= Seq::<EntityType>::empty());
                    }
                }
            }
        }
    }

    /// Rebuilds the index from the live world: living players, living
    /// trees and stones, campfires, storage boxes, mushrooms, ground
    /// item stacks, corpses, and standing shelters, each at its cell.
    ///
    /// After the rebuild, every such entity with an in-world position is
    /// found in the cell of that position (shelters at the center of
    /// their collision box), which is what the 3-by-3 range query
    /// guarantees rest on.
    #[verifier::loop_isolation(false)]
    pub fn populate_from_world(
        &mut self,
        players: &Vec<Player>,
        trees: &Vec<Tree>,
        stones: &Vec<Stone>,
        campfires: &Vec<Campfire>,
        boxes: &Vec<WoodenStorageBox>,
        mushrooms: &Vec<Mushroom>,
        corpses: &Vec<PlayerCorpse>,
        shelters: &Vec<Shelter>,
        store: &ItemStore,
    )
        requires
            old(self).wf(),
        ensures
            final(self).wf(),
            grid_entries_live(
                *final(self),
                players@,
                trees@,
                stones@,
                campfires@,
                boxes@,
                mushrooms@,
                corpses@,
                shelters@,
                store.items@,
            ),
            forall|k: int|
                0 <= k < players@.len() && !(#[trigger] players@[k]).is_dead
                    && players@[k].position_x < WORLD_WIDTH_PX && players@[k].position_y
                    < WORLD_HEIGHT_PX ==> final(self).spec_entities_at(
                    players@[k].position_x,
                    players@[k].position_y,
                ).contains(EntityType::Player(players@[k].identity)),
            forall|k: int|
                0 <= k < trees@.len() && (#[trigger] trees@[k]).health > 0 && trees@[k].pos_x
                    < WORLD_WIDTH_PX && trees@[k].pos_y < WORLD_HEIGHT_PX ==> final(self).spec_entities_at(trees@[k].pos_x, trees@[k].pos_y).contains(
                    EntityType::Tree(trees@[k].id),
                ),
            forall|k: int|
                0 <= k < stones@.len() && (#[trigger] stones@[k]).health > 0 && stones@[k].pos_x
                    < WORLD_WIDTH_PX && stones@[k].pos_y < WORLD_HEIGHT_PX ==> final(self).spec_entities_at(stones@[k].pos_x, stones@[k].pos_y).contains(
                    EntityType::Stone(stones@[k].id),
                ),
            forall|k: int|
                0 <= k < campfires@.len() && (#[trigger] campfires@[k]).pos_x < WORLD_WIDTH_PX
                    && campfires@[k].pos_y < WORLD_HEIGHT_PX ==> final(self).spec_entities_at(
                    campfires@[k].pos_x,
                    campfires@[k].pos_y,
                ).contains(EntityType::Campfire(campfires@[k].id)),
            forall|k: int|
                0 <= k < boxes@.len() && (#[trigger] boxes@[k]).pos_x < WORLD_WIDTH_PX
                    && boxes@[k].pos_y < WORLD_HEIGHT_PX ==> final(self).spec_entities_at(
                    boxes@[k].pos_x,
                    boxes@[k].pos_y,
                ).contains(EntityType::WoodenStorageBox(boxes@[k].id)),
            forall|k: int|
                0 <= k < mushrooms@.len() && (#[trigger] mushrooms@[k]).pos_x < WORLD_WIDTH_PX
                    && mushrooms@[k].pos_y < WORLD_HEIGHT_PX ==> final(self).spec_entities_at(
                    mushrooms@[k].pos_x,
                    mushrooms@[k].pos_y,
                ).contains(EntityType::Mushroom(mushrooms@[k].id)),
            forall|k: int|
                0 <= k < store.items@.len() && ((#[trigger] store.items@[k]).location matches
                    ItemLocation::Ground { x, y } && x < WORLD_WIDTH_PX && y < WORLD_HEIGHT_PX)
                    ==> (store.items@[k].location matches ItemLocation::Ground { x, y } ==> final(self).spec_entities_at(x, y).contains(
                    EntityType::DroppedItem(store.items@[k].instance_id),
                )),
            forall|k: int|
                0 <= k < corpses@.len() && (#[trigger] corpses@[k]).pos_x < WORLD_WIDTH_PX
                    && corpses@[k].pos_y < WORLD_HEIGHT_PX ==> final(self).spec_entities_at(
                    corpses@[k].pos_x,
                    corpses@[k].pos_y,
                ).contains(EntityType::PlayerCorpse(corpses@[k].id)),
            forall|k: int|
                0 <= k < shelters@.len() && !(#[trigger] shelters@[k]).is_destroyed
                    && shelters@[k].pos_x < WORLD_WIDTH_PX && spec_shelter_center_y(shelters@[k])
                    < WORLD_HEIGHT_PX ==> final(self).spec_entities_at(
                    shelters@[k].pos_x,
                    spec_shelter_center_y(shelters@[k]),
                ).contains(EntityType::Shelter(shelters@[k].id)),
            forall|k: int, c2: int, r2: int|
                0 <= k < shelters@.len() && !shelters@[k].is_destroyed && shelters@[k].pos_x
                    < WORLD_WIDTH_PX && spec_shelter_center_y(shelters@[k]) < WORLD_HEIGHT_PX
                    && spec_shelter_cell_window(shelters@[k]).0 <= c2 <= spec_shelter_cell_window(
                    shelters@[k],
                ).1 && spec_shelter_cell_window(shelters@[k]).2 <= r2 <= spec_shelter_cell_window(
                    shelters@[k],
                ).3 ==> #[trigger] final(self).spec_entities_at(
                    (c2 * GRID_CELL_SIZE) as u32,
                    (r2 * GRID_CELL_SIZE) as u32,
                ).contains(EntityType::Shelter(shelters@[k].id)),
    {
        self.clear();
        proof {
            assert forall|x2: u32, y2: u32, e2: EntityType|
                #[trigger] self.spec_entities_at(x2, y2).contains(e2)
                implies spec_indexed_entity_live(
                players@,
                trees@,
                stones@,
                campfires@,
                boxes@,
                mushrooms@,
                corpses@,
                shelters@,
                store.items@,
                e2,
                x2,
                y2,
            ) by {
                assert(self.spec_entities_at(x2, y2) =~= Seq::<EntityType>::empty());
            }
        }
        let ghost g0 = *self;

        let mut i: usize = 0;
        while i < players.len()
            invariant
                self.wf(),
                self.width == old(self).width,
                grid_entries_live(
                    *self,
                    players@,
                    trees@,
                    stones@,
                    campfires@,
                    boxes@,
                    mushrooms@,
                    corpses@,
                    shelters@,
                    store.items@,
                ),
                forall|k: int|
                    0 <= k < i && !(#[trigger] players@[k]).is_dead && players@[k].position_x
                        < WORLD_WIDTH_PX && players@[k].position_y < WORLD_HEIGHT_PX
                        ==> self.spec_entities_at(
                        players@[k].position_x,
                        players@[k].position_y,
                    ).contains(EntityType::Player(players@[k].identity)),
            decreases players.len() - i,
        {
            let p = &players[i];
            if !p.is_dead {
                let ghost pre = *self;
                self.add_entity(EntityType::Player(p.identity), p.position_x, p.position_y);
                proof {
                    Self::lemma_add_mono(
                        pre,
                        *self,
                        p.position_x,
                        p.position_y,
                        EntityType::Player(p.identity),
                    );
                    Self::lemma_add_grow(
                        pre,
                        *self,
                        p.position_x,
                        p.position_y,
                        EntityType::Player(p.identity),
                    );
                    assert(players@[i as int].identity == p.identity && !players@[i as int].is_dead);
                    if p.position_x < WORLD_WIDTH_PX && p.position_y < WORLD_HEIGHT_PX {
                        let s = self.spec_entities_at(p.position_x, p.position_y);
                        assert(s[s.len() - 1] == EntityType::Player(p.identity));
                    }
                }
            }
            i = i + 1;
        }

        let ghost g1 = *self;
        let mut i2: usize = 0;
        while i2 < trees.len()
            invariant
                self.wf(),
                self.width == old(self).width,
                grid_mono(g1, *self),
                grid_entries_live(
                    *self,
                    players@,
                    trees@,
                    stones@,
                    campfires@,
                    boxes@,
                    mushrooms@,
                    corpses@,
                    shelters@,
                    store.items@,
                ),
                forall|k: int|
                    0 <= k < i2 && (#[trigger] trees@[k]).health > 0 && trees@[k].pos_x
                        < WORLD_WIDTH_PX && trees@[k].pos_y < WORLD_HEIGHT_PX
                        ==> self.spec_entities_at(trees@[k].pos_x, trees@[k].pos_y).contains(
                        EntityType::Tree(trees@[k].id),
                    ),
            decreases trees.len() - i2,
        {
            let t = &trees[i2];
            if t.health > 0 {
                let ghost pre = *self;
                self.add_entity(EntityType::Tree(t.id), t.pos_x, t.pos_y);
                proof {
                    Self::lemma_add_mono(pre, *self, t.pos_x, t.pos_y, EntityType::Tree(t.id));
                    Self::lemma_add_grow(pre, *self, t.pos_x, t.pos_y, EntityType::Tree(t.id));
                    assert(trees@[i2 as int].id == t.id && trees@[i2 as int].health > 0);
                    if t.pos_x < WORLD_WIDTH_PX && t.pos_y < WORLD_HEIGHT_PX {
                        let s = self.spec_entities_at(t.pos_x, t.pos_y);
                        assert(s[s.len() - 1] == EntityType::Tree(t.id));
                    }
                }
            }
            i2 = i2 + 1;
        }

        let ghost g2 = *self;
        let mut i3: usize = 0;
        while i3 < stones.len()
            invariant
                self.wf(),
                self.width == old(self).width,
                grid_mono(g2, *self),
                grid_entries_live(
                    *self,
                    players@,
                    trees@,
                    stones@,
                    campfires@,
                    boxes@,
                    mushrooms@,
                    corpses@,
                    shelters@,
                    store.items@,
                ),
                forall|k: int|
                    0 <= k < i3 && (#[trigger] stones@[k]).health > 0 && stones@[k].pos_x
                        < WORLD_WIDTH_PX && stones@[k].pos_y < WORLD_HEIGHT_PX
                        ==> self.spec_entities_at(stones@[k].pos_x, stones@[k].pos_y).contains(
                        EntityType::Stone(stones@[k].id),
                    ),
            decreases stones.len() - i3,
        {
            let t = &stones[i3];
            if t.health > 0 {
                let ghost pre = *self;
                self.add_entity(EntityType::Stone(t.id), t.pos_x, t.pos_y);
                proof {
                    Self::lemma_add_mono(pre, *self, t.pos_x, t.pos_y, EntityType::Stone(t.id));
                    Self::lemma_add_grow(pre, *self, t.pos_x, t.pos_y, EntityType::Stone(t.id));
                    assert(stones@[i3 as int].id == t.id && stones@[i3 as int].health > 0);
                    if t.pos_x < WORLD_WIDTH_PX && t.pos_y < WORLD_HEIGHT_PX {
                        let s = self.spec_entities_at(t.pos_x, t.pos_y);
                        assert(s[s.len() - 1] == EntityType::Stone(t.id));
                    }
                }
            }
            i3 = i3 + 1;
        }

        let ghost g3 = *self;
        let mut i4: usize = 0;
        while i4 < campfires.len()
            invariant
                self.wf(),
                self.width == old(self).width,
                grid_mono(g3, *self),
                grid_entries_live(
                    *self,
                    players@,
                    trees@,
                    stones@,
                    campfires@,
                    boxes@,
                    mushrooms@,
                    corpses@,
                    shelters@,
                    store.items@,
                ),
                forall|k: int|
                    0 <= k < i4 && (#[trigger] campfires@[k]).pos_x < WORLD_WIDTH_PX
                        && campfires@[k].pos_y < WORLD_HEIGHT_PX ==> self.spec_entities_at(
                        campfires@[k].pos_x,
                        campfires@[k].pos_y,
                    ).contains(EntityType::Campfire(campfires@[k].id)),
            decreases campfires.len() - i4,
        {
            let c = &campfires[i4];
            let ghost pre = *self;
            self.add_entity(EntityType::Campfire(c.id), c.pos_x, c.pos_y);
            proof {
                Self::lemma_add_mono(pre, *self, c.pos_x, c.pos_y, EntityType::Campfire(c.id));
                Self::lemma_add_grow(pre, *self, c.pos_x, c.pos_y, EntityType::Campfire(c.id));
                assert(campfires@[i4 as int].id == c.id);
                if c.pos_x < WORLD_WIDTH_PX && c.pos_y < WORLD_HEIGHT_PX {
                    let s = self.spec_entities_at(c.pos_x, c.pos_y);
                    assert(s[s.len() - 1] == EntityType::Campfire(c.id));
                }
            }
            i4 = i4 + 1;
        }

        let ghost g4 = *self;
        let mut i5: usize = 0;
        while i5 < boxes.len()
            invariant
                self.wf(),
                self.width == old(self).width,
                grid_mono(g4, *self),
                grid_entries_live(
                    *self,
                    players@,
                    trees@,
                    stones@,
                    campfires@,
                    boxes@,
                    mushrooms@,
                    corpses@,
                    shelters@,
                    store.items@,
                ),
                forall|k: int|
                    0 <= k < i5 && (#[trigger] boxes@[k]).pos_x < WORLD_WIDTH_PX
                        && boxes@[k].pos_y < WORLD_HEIGHT_PX ==> self.spec_entities_at(
                        boxes@[k].pos_x,
                        boxes@[k].pos_y,
                    ).contains(EntityType::WoodenStorageBox(boxes@[k].id)),
            decreases boxes.len() - i5,
        {
            let b = &boxes[i5];
            let ghost pre = *self;
            self.add_entity(EntityType::WoodenStorageBox(b.id), b.pos_x, b.pos_y);
            proof {
                Self::lemma_add_mono(
                    pre,
                    *self,
                    b.pos_x,
                    b.pos_y,
                    EntityType::WoodenStorageBox(b.id),
                );
                Self::lemma_add_grow(
                    pre,
                    *self,
                    b.pos_x,
                    b.pos_y,
                    EntityType::WoodenStorageBox(b.id),
                );
                assert(boxes@[i5 as int].id == b.id);
                if b.pos_x < WORLD_WIDTH_PX && b.pos_y < WORLD_HEIGHT_PX {
                    let s = self.spec_entities_at(b.pos_x, b.pos_y);
                    assert(s[s.len() - 1] == EntityType::WoodenStorageBox(b.id));
                }
            }
            i5 = i5 + 1;
        }

        let ghost g5 = *self;
        let mut i6: usize = 0;
        while i6 < mushrooms.len()
            invariant
                self.wf(),
                self.width == old(self).width,
                grid_mono(g5, *self),
                grid_entries_live(
                    *self,
                    players@,
                    trees@,
                    stones@,
                    campfires@,
                    boxes@,
                    mushrooms@,
                    corpses@,
                    shelters@,
                    store.items@,
                ),
                forall|k: int|
                    0 <= k < i6 && (#[trigger] mushrooms@[k]).pos_x < WORLD_WIDTH_PX
                        && mushrooms@[k].pos_y < WORLD_HEIGHT_PX ==> self.spec_entities_at(
                        mushrooms@[k].pos_x,
                        mushrooms@[k].pos_y,
                    ).contains(EntityType::Mushroom(mushrooms@[k].id)),
            decreases mushrooms.len() - i6,
        {
            let m = &mushrooms[i6];
            let ghost pre = *self;
            self.add_entity(EntityType::Mushroom(m.id), m.pos_x, m.pos_y);
            proof {
                Self::lemma_add_mono(pre, *self, m.pos_x, m.pos_y, EntityType::Mushroom(m.id));
                Self::lemma_add_grow(pre, *self, m.pos_x, m.pos_y, EntityType::Mushroom(m.id));
                assert(mushrooms@[i6 as int].id == m.id);
                if m.pos_x < WORLD_WIDTH_PX && m.pos_y < WORLD_HEIGHT_PX {
                    let s = self.spec_entities_at(m.pos_x, m.pos_y);
                    assert(s[s.len() - 1] == EntityType::Mushroom(m.id));
                }
            }
            i6 = i6 + 1;
        }

        let ghost g6 = *self;
        let mut i7: usize = 0;
        while i7 < store.items.len()
            invariant
                self.wf(),
                self.width == old(self).width,
                grid_mono(g6, *self),
                grid_entries_live(
                    *self,
                    players@,
                    trees@,
                    stones@,
                    campfires@,
                    boxes@,
                    mushrooms@,
                    corpses@,
                    shelters@,
                    store.items@,
                ),
                forall|k: int|
                    0 <= k < i7 && ((#[trigger] store.items@[k]).location matches
                        ItemLocation::Ground { x, y } && x < WORLD_WIDTH_PX && y < WORLD_HEIGHT_PX)
                        ==> (store.items@[k].location matches ItemLocation::Ground { x, y }
                        ==> self.spec_entities_at(x, y).contains(
                        EntityType::DroppedItem(store.items@[k].instance_id),
                    )),
            decreases store.items@.len() - i7,
        {
            let it = &store.items[i7];
            match it.location {
                ItemLocation::Ground { x, y } => {
                    let ghost pre = *self;
                    self.add_entity(EntityType::DroppedItem(it.instance_id), x, y);
                    proof {
                        Self::lemma_add_mono(
                            pre,
                            *self,
                            x,
                            y,
                            EntityType::DroppedItem(it.instance_id),
                        );
                        Self::lemma_add_grow(
                            pre,
                            *self,
                            x,
                            y,
                            EntityType::DroppedItem(it.instance_id),
                        );
                        assert(store.items@[i7 as int].instance_id == it.instance_id
                            && store.items@[i7 as int].location is Ground);
                        if x < WORLD_WIDTH_PX && y < WORLD_HEIGHT_PX {
                            let s = self.spec_entities_at(x, y);
                            assert(s[s.len() - 1] == EntityType::DroppedItem(it.instance_id));
                        }
                    }
                },
                _ => {},
            }
            i7 = i7 + 1;
        }

        let ghost g7 = *self;
        let mut i8: usize = 0;
        while i8 < corpses.len()
            invariant
                self.wf(),
                self.width == old(self).width,
                grid_mono(g7, *self),
                grid_entries_live(
                    *self,
                    players@,
                    trees@,
                    stones@,
                    campfires@,
                    boxes@,
                    mushrooms@,
                    corpses@,
                    shelters@,
                    store.items@,
                ),
                forall|k: int|
                    0 <= k < i8 && (#[trigger] corpses@[k]).pos_x < WORLD_WIDTH_PX
                        && corpses@[k].pos_y < WORLD_HEIGHT_PX ==> self.spec_entities_at(
                        corpses@[k].pos_x,
                        corpses@[k].pos_y,
                    ).contains(EntityType::PlayerCorpse(corpses@[k].id)),
            decreases corpses.len() - i8,
        {
            let c = &corpses[i8];
            let ghost pre = *self;
            self.add_entity(EntityType::PlayerCorpse(c.id), c.pos_x, c.pos_y);
            proof {
                Self::lemma_add_mono(pre, *self, c.pos_x, c.pos_y, EntityType::PlayerCorpse(c.id));
                Self::lemma_add_grow(pre, *self, c.pos_x, c.pos_y, EntityType::PlayerCorpse(c.id));
                assert(corpses@[i8 as int].id == c.id);
                if c.pos_x < WORLD_WIDTH_PX && c.pos_y < WORLD_HEIGHT_PX {
                    let s = self.spec_entities_at(c.pos_x, c.pos_y);
                    assert(s[s.len() - 1] == EntityType::PlayerCorpse(c.id));
                }
            }
            i8 = i8 + 1;
        }

        // Shelters are larger than a cell: index them into every cell
        // their collision box overlaps.
        let ghost g8 = *self;
        let mut i9: usize = 0;
        while i9 < shelters.len()
            invariant
                self.wf(),
                self.width == old(self).width,
                grid_mono(g8, *self),
                grid_entries_live(
                    *self,
                    players@,
                    trees@,
                    stones@,
                    campfires@,
                    boxes@,
                    mushrooms@,
                    corpses@,
                    shelters@,
                    store.items@,
                ),
                forall|k: int|
                    0 <= k < i9 && !(#[trigger] shelters@[k]).is_destroyed && shelters@[k].pos_x
                        < WORLD_WIDTH_PX && spec_shelter_center_y(shelters@[k]) < WORLD_HEIGHT_PX
                        ==> self.spec_entities_at(
                        shelters@[k].pos_x,
                        spec_shelter_center_y(shelters@[k]),
                    ).contains(EntityType::Shelter(shelters@[k].id)),
                forall|k: int, c2: int, r2: int|
                    0 <= k < i9 && !shelters@[k].is_destroyed && shelters@[k].pos_x
                        < WORLD_WIDTH_PX && spec_shelter_center_y(shelters@[k]) < WORLD_HEIGHT_PX
                        && spec_shelter_cell_window(shelters@[k]).0 <= c2
                        <= spec_shelter_cell_window(shelters@[k]).1 && spec_shelter_cell_window(
                        shelters@[k],
                    ).2 <= r2 <= spec_shelter_cell_window(shelters@[k]).3
                        ==> #[trigger] self.spec_entities_at(
                        (c2 * GRID_CELL_SIZE) as u32,
                        (r2 * GRID_CELL_SIZE) as u32,
                    ).contains(EntityType::Shelter(shelters@[k].id)),
            decreases shelters.len() - i9,
        {
            let ghost pre = *self;
            self.index_shelter(&shelters[i9]);
            proof {
                assert forall|k: int|
                    0 <= k < i9 + 1 && !(#[trigger] shelters@[k]).is_destroyed
                        && shelters@[k].pos_x < WORLD_WIDTH_PX && spec_shelter_center_y(
                        shelters@[k],
                    ) < WORLD_HEIGHT_PX implies self.spec_entities_at(
                    shelters@[k].pos_x,
                    spec_shelter_center_y(shelters@[k]),
                ).contains(EntityType::Shelter(shelters@[k].id)) by {
                    if k < i9 {
                        assert(pre.spec_entities_at(
                            shelters@[k].pos_x,
                            spec_shelter_center_y(shelters@[k]),
                        ).contains(EntityType::Shelter(shelters@[k].id)));
                    }
                }
                assert forall|k: int, c2: int, r2: int|
                    0 <= k < i9 + 1 && !shelters@[k].is_destroyed && shelters@[k].pos_x
                        < WORLD_WIDTH_PX && spec_shelter_center_y(shelters@[k]) < WORLD_HEIGHT_PX
                        && spec_shelter_cell_window(shelters@[k]).0 <= c2
                        <= spec_shelter_cell_window(shelters@[k]).1 && spec_shelter_cell_window(
                        shelters@[k],
                    ).2 <= r2 <= spec_shelter_cell_window(shelters@[k]).3
                    implies #[trigger] self.spec_entities_at(
                    (c2 * GRID_CELL_SIZE) as u32,
                    (r2 * GRID_CELL_SIZE) as u32,
                ).contains(EntityType::Shelter(shelters@[k].id)) by {
                    if k < i9 {
                        assert(pre.spec_entities_at(
                            (c2 * GRID_CELL_SIZE) as u32,
                            (r2 * GRID_CELL_SIZE) as u32,
                        ).contains(EntityType::Shelter(shelters@[k].id)));
                    }
                }
            }
            i9 = i9 + 1;
        }
    }
}

} // verus!
