//! The tile grid: its cells, its rooms, and what of it has been seen.

use vstd::prelude::*;
use crate::rect::Rect;

verus! {

/// What a grid cell is made of.
#[derive(Clone, Copy, Debug, PartialEq, Eq, Structural)]
pub enum TileType {
    Wall,
    Floor,
}

/// A dungeon level: a row-major grid of tiles, the rooms that were carved
/// into it in the order they were placed, and two grids of flags of the same
/// shape that record which tiles have ever been seen and which are seen now.
#[derive(Clone, Debug)]
pub struct GameMap {
    pub tiles: Vec<TileType>,
    pub rooms: Vec<Rect>,
    pub width: i32,
    pub height: i32,
    pub revealed_tiles: Vec<bool>,
    pub visible_tiles: Vec<bool>,
}

/// Whether `(x, y)` lies in the box `xlo..=xhi` by `ylo..=yhi`.
pub open spec fn in_box(xlo: int, xhi: int, ylo: int, yhi: int, x: int, y: int) -> bool {
    xlo <= x <= xhi && ylo <= y <= yhi
}

/// The row-major grid `tiles` of the given width after every cell of the box
/// `xlo..=xhi` by `ylo..=yhi` that is on the grid has been turned to floor.
pub open spec fn carved(
    tiles: Seq<TileType>,
    width: int,
    xlo: int,
    xhi: int,
    ylo: int,
    yhi: int,
) -> Seq<TileType> {
    Seq::new(
        tiles.len(),
        |i: int|
            if in_box(xlo, xhi, ylo, yhi, i % width, i / width) {
                TileType::Floor
            } else {
                tiles[i]
            },
    )
}

/// The grid while a box is being carved row by row: the rows `ylo..y` of the
/// box are floor, and so is row `y` of the box left of column `x`.
spec fn carving(
    tiles: Seq<TileType>,
    width: int,
    xlo: int,
    xhi: int,
    ylo: int,
    y: int,
    x: int,
) -> Seq<TileType> {
    Seq::new(
        tiles.len(),
        |i: int|
            if xlo <= i % width <= xhi && (ylo <= i / width < y || (i / width == y && i % width
                < x)) {
                TileType::Floor
            } else {
                tiles[i]
            },
    )
}

/// A cell of a grid `width` wide has the index `y * width + x`, from which
/// the cell is found again by division.
pub proof fn lemma_index_of_cell(width: int, height: int, x: int, y: int)
    requires
        0 <= x < width,
        0 <= y < height,
    ensures
        0 <= y * width + x < width * height,
        (y * width + x) / width == y,
        (y * width + x) % width == x,
{
    assert(0 <= y * width + x < width * height) by (nonlinear_arith)
        requires
            0 <= x < width,
            0 <= y < height,
    ;
    vstd::arithmetic::div_mod::lemma_fundamental_div_mod_converse(y * width + x, width, y, x);
}

/// An index into a grid `width` wide and `height` high names the cell in
/// column `i % width` of row `i / width`.
pub proof fn lemma_cell_of_index(width: int, height: int, i: int)
    requires
        0 < width,
        0 <= i < width * height,
    ensures
        0 <= i % width < width,
        0 <= i / width < height,
        (i / width) * width + i % width == i,
{
    vstd::arithmetic::div_mod::lemma_fundamental_div_mod(i, width);
    assert(0 <= i % width < width);
    assert(0 <= i / width < height) by (nonlinear_arith)
        requires
            0 < width,
            0 <= i < width * height,
            i == width * (i / width) + i % width,
            0 <= i % width < width,
    ;
    assert((i / width) * width == width * (i / width)) by (nonlinear_arith);
}

/// Turns every cell of the box `xlo..=xhi` by `ylo..=yhi` that lies on the
/// grid to floor, and leaves the others as they are.
pub fn carve_box(
    tiles: &mut Vec<TileType>,
    width: i32,
    height: i32,
    xlo: i64,
    xhi: i64,
    ylo: i64,
    yhi: i64,
)
    requires
        width > 0,
        height > 0,
        old(tiles)@.len() == width * height,
    ensures
        final(tiles)@ == carved(
            old(tiles)@,
            width as int,
            xlo as int,
            xhi as int,
            ylo as int,
            yhi as int,
        ),
{
    let x0: i64 = if xlo < 0 { 0 } else { xlo };
    let x1: i64 = if xhi > width as i64 - 1 { width as i64 - 1 } else { xhi };
    let y0: i64 = if ylo < 0 { 0 } else { ylo };
    let y1: i64 = if yhi > height as i64 - 1 { height as i64 - 1 } else { yhi };
    let ghost before = tiles@;
    let mut y: i64 = y0;
    if y0 <= y1 && x0 <= x1 {
        while y <= y1
            invariant
                width > 0,
                height > 0,
                before.len() == width * height,
                0 <= x0 <= x1 < width,
                0 <= y0 <= y <= y1 + 1 <= height,
                tiles@ == carving(
                    before,
                    width as int,
                    x0 as int,
                    x1 as int,
                    y0 as int,
                    y as int,
                    x0 as int,
                ),
            decreases y1 + 1 - y,
        {
            let mut x: i64 = x0;
            while x <= x1
                invariant
                    width > 0,
                    height > 0,
                    before.len() == width * height,
                    0 <= x0 <= x <= x1 + 1 <= width,
                    0 <= y0 <= y <= y1 < height,
                    tiles.len() == before.len(),
                    tiles@ == carving(
                        before,
                        width as int,
                        x0 as int,
                        x1 as int,
                        y0 as int,
                        y as int,
                        x as int,
                    ),
                decreases x1 + 1 - x,
            {
                proof {
                    lemma_index_of_cell(width as int, height as int, x as int, y as int);
                    assert(0 <= y * width) by (nonlinear_arith)
                        requires
                            0 <= y,
                            0 < width,
                    ;
                }
                let idx: usize = (y as usize) * (width as usize) + (x as usize);
                tiles[idx] = TileType::Floor;
                proof {
                    assert forall|i: int| 0 <= i < before.len() implies #[trigger] tiles@[i]
                        == carving(
                            before,
                            width as int,
                            x0 as int,
                            x1 as int,
                            y0 as int,
                            y as int,
                            x + 1,
                        )[i] by {
                        lemma_cell_of_index(width as int, height as int, i);
                    }
                    assert(tiles@ =~= carving(
                        before,
                        width as int,
                        x0 as int,
                        x1 as int,
                        y0 as int,
                        y as int,
                        x + 1,
                    ));
                }
                x = x + 1;
            }
            proof {
                assert(tiles@ =~= carving(
                    before,
                    width as int,
                    x0 as int,
                    x1 as int,
                    y0 as int,
                    y + 1,
                    x0 as int,
                ));
            }
            y = y + 1;
        }
    }
    proof {
        assert forall|i: int| 0 <= i < before.len() implies #[trigger] tiles@[i] == carved(
            before,
            width as int,
            xlo as int,
            xhi as int,
            ylo as int,
            yhi as int,
        )[i] by {
            lemma_cell_of_index(width as int, height as int, i);
        }
        assert(tiles@ =~= carved(
            before,
            width as int,
            xlo as int,
            xhi as int,
            ylo as int,
            yhi as int,
        ));
    }
}

/// The smaller of two coordinates.
pub open spec fn lower(a: int, b: int) -> int {
    if a <= b {
        a
    } else {
        b
    }
}

/// The larger of two coordinates.
pub open spec fn upper(a: int, b: int) -> int {
    if a <= b {
        b
    } else {
        a
    }
}

/// A cell that lies on the grid holds, after a box was carved, floor if it
/// is in the box and what it held before if it is not.
pub proof fn lemma_carved_cell(
    tiles: Seq<TileType>,
    width: int,
    height: int,
    xlo: int,
    xhi: int,
    ylo: int,
    yhi: int,
    x: int,
    y: int,
)
    requires
        tiles.len() == width * height,
        0 <= x < width,
        0 <= y < height,
    ensures
        0 <= y * width + x < tiles.len(),
        carved(tiles, width, xlo, xhi, ylo, yhi)[y * width + x] == (if in_box(
            xlo,
            xhi,
            ylo,
            yhi,
            x,
            y,
        ) {
            TileType::Floor
        } else {
            tiles[y * width + x]
        }),
{
    lemma_index_of_cell(width, height, x, y);
}

impl GameMap {
    /// The number of cells of the grid.
    pub open spec fn size(&self) -> int {
        self.width * self.height
    }

    /// The grid has a positive extent and no more cells than an `i32` can
    /// count, the three grids have one flag or tile for each cell, and a tile
    /// that is seen now has been revealed.
    pub open spec fn wf(&self) -> bool {
        &&& self.width > 0
        &&& self.height > 0
        &&& self.size() <= i32::MAX
        &&& self.tiles@.len() == self.size()
        &&& self.revealed_tiles@.len() == self.size()
        &&& self.visible_tiles@.len() == self.size()
        &&& forall|i: int|
            0 <= i < self.size() && #[trigger] self.visible_tiles@[i] ==> self.revealed_tiles@[i]
    }

    /// Whether `(x, y)` is a cell of the grid.
    pub open spec fn in_bounds(&self, x: int, y: int) -> bool {
        0 <= x < self.width && 0 <= y < self.height
    }

    /// The row-major index of the cell `(x, y)`.
    pub open spec fn index_of(&self, x: int, y: int) -> int {
        y * self.width + x
    }

    /// Whether `other` differs from this map in its tiles at most.
    pub open spec fn same_but_tiles(&self, other: &GameMap) -> bool {
        &&& self.width == other.width
        &&& self.height == other.height
        &&& self.rooms@ == other.rooms@
        &&& self.revealed_tiles@ == other.revealed_tiles@
        &&& self.visible_tiles@ == other.visible_tiles@
    }

    /// A grid of the given extent that is all wall, with no room, and of
    /// which nothing has been seen.
    pub fn new(width: i32, height: i32) -> (map: GameMap)
        requires
            width > 0,
            height > 0,
            width * height <= i32::MAX,
        ensures
            map.wf(),
            map.width == width,
            map.height == height,
            map.rooms@.len() == 0,
            forall|i: int| 0 <= i < map.size() ==> map.tiles@[i] == TileType::Wall,
            forall|i: int| 0 <= i < map.size() ==> !map.revealed_tiles@[i],
            forall|i: int| 0 <= i < map.size() ==> !map.visible_tiles@[i],
    {
        proof {
            assert(0 < width * height) by (nonlinear_arith)
                requires
                    width > 0,
                    height > 0,
            ;
        }
        let cells: usize = (width as usize) * (height as usize);
        GameMap {
            tiles: vec![TileType::Wall; cells],
            rooms: Vec::new(),
            width,
            height,
            revealed_tiles: vec![false; cells],
            visible_tiles: vec![false; cells],
        }
    }

    /// Whether the map is well formed.
    pub fn is_wf(&self) -> (ok: bool)
        ensures
            ok == self.wf(),
    {
        if self.width <= 0 || self.height <= 0 {
            return false;
        }
        proof {
            assert(0 < self.width * self.height <= 0x3fff_ffff_0000_0001) by (nonlinear_arith)
                requires
                    0 < self.width <= 0x7fff_ffff,
                    0 < self.height <= 0x7fff_ffff,
            ;
        }
        let cells: i64 = (self.width as i64) * (self.height as i64);
        if cells > i32::MAX as i64 {
            return false;
        }
        let count = cells as usize;
        if self.tiles.len() != count || self.revealed_tiles.len() != count
            || self.visible_tiles.len() != count {
            return false;
        }
        let mut i: usize = 0;
        while i < count
            invariant
                0 <= i <= count,
                count == self.size(),
                self.revealed_tiles@.len() == count,
                self.visible_tiles@.len() == count,
                forall|j: int| 0 <= j < i && #[trigger] self.visible_tiles@[j]
                    ==> self.revealed_tiles@[j],
            decreases count - i,
        {
            if self.visible_tiles[i] && !self.revealed_tiles[i] {
                return false;
            }
            i = i + 1;
        }
        true
    }

    /// Whether `(x, y)` is a cell of the grid.
    pub fn on_map(&self, x: i32, y: i32) -> (on: bool)
        ensures
            on == self.in_bounds(x as int, y as int),
    {
        0 <= x && x < self.width && 0 <= y && y < self.height
    }

    /// The row-major index of the cell `(x, y)`, which must lie on the grid.
    pub fn xy_idx(&self, x: i32, y: i32) -> (idx: usize)
        requires
            self.in_bounds(x as int, y as int),
            self.size() <= usize::MAX,
        ensures
            idx == self.index_of(x as int, y as int),
            idx < self.size(),
    {
        proof {
            lemma_index_of_cell(self.width as int, self.height as int, x as int, y as int);
            assert(0 <= y * self.width) by (nonlinear_arith)
                requires
                    0 <= y,
                    0 < self.width,
            ;
        }
        (y as usize) * (self.width as usize) + (x as usize)
    }

    /// Whether sight stops at the tile with the given index: it does at a
    /// wall, and at any index that is not on the grid.
    pub fn is_opaque(&self, idx: usize) -> (opaque: bool)
        ensures
            opaque == !(idx < self.tiles@.len() && self.tiles@[idx as int] == TileType::Floor),
    {
        if idx < self.tiles.len() {
            self.tiles[idx] == TileType::Wall
        } else {
            true
        }
    }

    /// The extent of the grid as a point: its width as `x`, its height as
    /// `y`.
    pub fn dimensions(&self) -> (extent: rltk::Point)
        ensures
            extent.x == self.width,
            extent.y == self.height,
    {
        rltk::Point { x: self.width, y: self.height }
    }

    /// Carves the floor of `room`: the cells `(x, y)` of the grid with
    /// `room.x1 < x <= room.x2` and `room.y1 < y <= room.y2`.
    pub fn apply_room_to_map(&mut self, room: &Rect)
        requires
            old(self).wf(),
        ensures
            final(self).wf(),
            old(self).same_but_tiles(final(self)),
            final(self).tiles@ == carved(
                old(self).tiles@,
                old(self).width as int,
                room.x1 + 1,
                room.x2 as int,
                room.y1 + 1,
                room.y2 as int,
            ),
    {
        carve_box(
            &mut self.tiles,
            self.width,
            self.height,
            room.x1 as i64 + 1,
            room.x2 as i64,
            room.y1 as i64 + 1,
            room.y2 as i64,
        );
    }

    /// Carves the cells of row `y` between the columns `x1` and `x2`, both
    /// included and in either order, as far as they lie on the grid.
    pub fn apply_horizontal_tunner(&mut self, x1: i32, x2: i32, y: i32)
        requires
            old(self).wf(),
        ensures
            final(self).wf(),
            old(self).same_but_tiles(final(self)),
            final(self).tiles@ == carved(
                old(self).tiles@,
                old(self).width as int,
                lower(x1 as int, x2 as int),
                upper(x1 as int, x2 as int),
                y as int,
                y as int,
            ),
    {
        let (lo, hi) = if x1 <= x2 {
            (x1, x2)
        } else {
            (x2, x1)
        };
        carve_box(
            &mut self.tiles,
            self.width,
            self.height,
            lo as i64,
            hi as i64,
            y as i64,
            y as i64,
        );
    }

    /// Carves the cells of column `x` between the rows `y1` and `y2`, both
    /// included and in either order, as far as they lie on the grid.
    pub fn apply_vertical_tunnel(&mut self, y1: i32, y2: i32, x: i32)
        requires
            old(self).wf(),
        ensures
            final(self).wf(),
            old(self).same_but_tiles(final(self)),
            final(self).tiles@ == carved(
                old(self).tiles@,
                old(self).width as int,
                x as int,
                x as int,
                lower(y1 as int, y2 as int),
                upper(y1 as int, y2 as int),
            ),
    {
        let (lo, hi) = if y1 <= y2 {
            (y1, y2)
        } else {
            (y2, y1)
        };
        carve_box(
            &mut self.tiles,
            self.width,
            self.height,
            x as i64,
            x as i64,
            lo as i64,
            hi as i64,
        );
    }
}

impl Default for GameMap {
    /// The empty map: no cell, no room.
    fn default() -> (map: GameMap)
        ensures
            map.width == 0,
            map.height == 0,
            map.tiles@.len() == 0,
            map.rooms@.len() == 0,
            map.revealed_tiles@.len() == 0,
            map.visible_tiles@.len() == 0,
    {
        GameMap {
            tiles: Vec::new(),
            rooms: Vec::new(),
            width: 0,
            height: 0,
            revealed_tiles: Vec::new(),
            visible_tiles: Vec::new(),
        }
    }
}

} // verus!
