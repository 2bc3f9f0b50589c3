//! Building a level: rooms that keep clear of each other, each joined to
//! the room placed before it by a corridor with one bend.

use vstd::prelude::*;
use rltk::RandomNumberGenerator;
use crate::random::roll_dice;
use crate::random::roll_range;
use crate::map::GameMap;
use crate::map::TileType;
use crate::map::carved;
use crate::map::in_box;
use crate::map::lower;
use crate::map::upper;
use crate::map::lemma_carved_cell;
use crate::paths::connected;
use crate::paths::floor_at;
use crate::paths::keeps_floor;
use crate::paths::lemma_box_connected;
use crate::paths::lemma_column_connected;
use crate::paths::lemma_connected_kept;
use crate::paths::lemma_connected_symmetric;
use crate::paths::lemma_connected_transitive;
use crate::paths::lemma_row_connected;
use crate::rect::Rect;

verus! {

/// The width of a generated level.
pub const MAP_WIDTH: i32 = 80;

/// The height of a generated level.
pub const MAP_HEIGHT: i32 = 50;

/// How many rooms the generator tries to place.
pub const MAX_ROOMS: i32 = 30;

/// The least width and height of a generated room.
pub const MIN_SIZE: i32 = 6;

/// The bound on the width and height of a generated room.
pub const MAX_SIZE: i32 = 10;

/// The grid after the floor of `room` has been carved.
pub open spec fn with_room(tiles: Seq<TileType>, width: int, room: Rect) -> Seq<TileType> {
    carved(tiles, width, room.x1 + 1, room.x2 as int, room.y1 + 1, room.y2 as int)
}

/// The grid after the cells of row `y` from column `x1` to column `x2` have
/// been carved.
pub open spec fn with_row(tiles: Seq<TileType>, width: int, x1: int, x2: int, y: int) -> Seq<
    TileType,
> {
    carved(tiles, width, lower(x1, x2), upper(x1, x2), y, y)
}

/// The grid after the cells of column `x` from row `y1` to row `y2` have
/// been carved.
pub open spec fn with_column(tiles: Seq<TileType>, width: int, y1: int, y2: int, x: int) -> Seq<
    TileType,
> {
    carved(tiles, width, x, x, lower(y1, y2), upper(y1, y2))
}

/// The grid after a corridor with one bend has been carved between `from`
/// and `to`. With `horizontal_first` the corridor leaves `from` along its
/// row and reaches `to` along the column of `to`; without, it leaves `from`
/// along its column and reaches `to` along the row of `to`.
pub open spec fn with_corridor(
    tiles: Seq<TileType>,
    width: int,
    from: (int, int),
    to: (int, int),
    horizontal_first: bool,
) -> Seq<TileType> {
    if horizontal_first {
        with_column(with_row(tiles, width, from.0, to.0, from.1), width, from.1, to.1, to.0)
    } else {
        with_row(with_column(tiles, width, from.1, to.1, from.0), width, from.0, to.0, to.1)
    }
}

/// Whether `room` intersects one of `rooms`.
pub open spec fn clashes(rooms: Seq<Rect>, room: Rect) -> bool {
    exists|i: int| #![trigger rooms[i]] 0 <= i < rooms.len() && room.intersects(&rooms[i])
}

/// The grid after `room` has been added to a level that holds `rooms`: its
/// floor is carved, and if it is not the first room, a corridor joins the
/// midpoint of the last of `rooms` to its own.
pub open spec fn joined_tiles(
    tiles: Seq<TileType>,
    rooms: Seq<Rect>,
    width: int,
    room: Rect,
    horizontal_first: bool,
) -> Seq<TileType> {
    if rooms.len() == 0 {
        with_room(tiles, width, room)
    } else {
        with_corridor(
            with_room(tiles, width, room),
            width,
            rooms.last().midpoint(),
            room.midpoint(),
            horizontal_first,
        )
    }
}

/// The grid after an attempt to place `room`: a room that intersects one of
/// `rooms` changes nothing, any other is added.
pub open spec fn placed_tiles(
    tiles: Seq<TileType>,
    rooms: Seq<Rect>,
    width: int,
    room: Rect,
    horizontal_first: bool,
) -> Seq<TileType> {
    if clashes(rooms, room) {
        tiles
    } else {
        joined_tiles(tiles, rooms, width, room, horizontal_first)
    }
}

/// The rooms after an attempt to place `room`.
pub open spec fn placed_rooms(rooms: Seq<Rect>, room: Rect) -> Seq<Rect> {
    if clashes(rooms, room) {
        rooms
    } else {
        rooms.push(room)
    }
}

/// Carving a box turns no floor back to wall.
pub proof fn lemma_carved_keeps_floor(
    tiles: Seq<TileType>,
    width: int,
    xlo: int,
    xhi: int,
    ylo: int,
    yhi: int,
)
    ensures
        keeps_floor(tiles, carved(tiles, width, xlo, xhi, ylo, yhi)),
{
}

/// A corridor between two cells of the grid joins them, and carving it
/// turns no floor back to wall.
pub proof fn lemma_corridor_connects(
    tiles: Seq<TileType>,
    width: int,
    height: int,
    from: (int, int),
    to: (int, int),
    horizontal_first: bool,
)
    requires
        tiles.len() == width * height,
        0 <= from.0 < width,
        0 <= from.1 < height,
        0 <= to.0 < width,
        0 <= to.1 < height,
    ensures
        keeps_floor(tiles, with_corridor(tiles, width, from, to, horizontal_first)),
        connected(with_corridor(tiles, width, from, to, horizontal_first), width, height, from, to),
{
    let done = with_corridor(tiles, width, from, to, horizontal_first);
    if horizontal_first {
        let half = with_row(tiles, width, from.0, to.0, from.1);
        let bend = (to.0, from.1);
        assert forall|x: int| lower(
            from.0,
            to.0,
        ) <= x <= upper(from.0, to.0) implies #[trigger] floor_at(
            done,
            width,
            height,
            x,
            from.1,
        ) by {
            lemma_carved_cell(
                tiles,
                width,
                height,
                lower(from.0, to.0),
                upper(from.0, to.0),
                from.1,
                from.1,
                x,
                from.1,
            );
            lemma_carved_cell(
                half,
                width,
                height,
                to.0,
                to.0,
                lower(from.1, to.1),
                upper(from.1, to.1),
                x,
                from.1,
            );
        }
        assert forall|y: int| lower(
            from.1,
            to.1,
        ) <= y <= upper(from.1, to.1) implies #[trigger] floor_at(
            done,
            width,
            height,
            to.0,
            y,
        ) by {
            lemma_carved_cell(
                half,
                width,
                height,
                to.0,
                to.0,
                lower(from.1, to.1),
                upper(from.1, to.1),
                to.0,
                y,
            );
        }
        lemma_row_connected(done, width, height, from.0, to.0, from.1);
        lemma_column_connected(done, width, height, from.1, to.1, to.0);
        lemma_connected_transitive(done, width, height, from, bend, to);
    } else {
        let half = with_column(tiles, width, from.1, to.1, from.0);
        let bend = (from.0, to.1);
        assert forall|y: int| lower(
            from.1,
            to.1,
        ) <= y <= upper(from.1, to.1) implies #[trigger] floor_at(
            done,
            width,
            height,
            from.0,
            y,
        ) by {
            lemma_carved_cell(
                tiles,
                width,
                height,
                from.0,
                from.0,
                lower(from.1, to.1),
                upper(from.1, to.1),
                from.0,
                y,
            );
            lemma_carved_cell(
                half,
                width,
                height,
                lower(from.0, to.0),
                upper(from.0, to.0),
                to.1,
                to.1,
                from.0,
                y,
            );
        }
        assert forall|x: int| lower(
            from.0,
            to.0,
        ) <= x <= upper(from.0, to.0) implies #[trigger] floor_at(
            done,
            width,
            height,
            x,
            to.1,
        ) by {
            lemma_carved_cell(
                half,
                width,
                height,
                lower(from.0, to.0),
                upper(from.0, to.0),
                to.1,
                to.1,
                x,
                to.1,
            );
        }
        lemma_column_connected(done, width, height, from.1, to.1, from.0);
        lemma_row_connected(done, width, height, from.0, to.0, to.1);
        lemma_connected_transitive(done, width, height, from, bend, to);
    }
}


impl GameMap {
    /// Whether `room` keeps one cell clear of the edge of the grid on every
    /// side and is at least two cells wide and high.
    pub open spec fn fits(&self, room: Rect) -> bool {
        &&& 0 <= room.x1
        &&& room.x2 <= self.width - 2
        &&& 0 <= room.y1
        &&& room.y2 <= self.height - 2
        &&& room.x2 - room.x1 >= 2
        &&& room.y2 - room.y1 >= 2
    }

    /// Whether `p` is a floor cell of the room with index `i`.
    pub open spec fn in_room(&self, i: int, p: (int, int)) -> bool {
        0 <= i < self.rooms@.len() && self.rooms@[i].contains(p.0, p.1)
    }

    /// Whether `(x, y)` is a cell of the grid and holds floor.
    pub open spec fn is_floor(&self, x: int, y: int) -> bool {
        floor_at(self.tiles@, self.width as int, self.height as int, x, y)
    }

    /// No two rooms intersect.
    pub open spec fn rooms_apart(&self) -> bool {
        forall|i: int, j: int|
            #![trigger self.rooms@[i], self.rooms@[j]]
            0 <= i < self.rooms@.len() && 0 <= j < self.rooms@.len() && i != j
                ==> !self.rooms@[i].intersects(&self.rooms@[j])
    }

    /// The floor of every room is floor on the grid.
    pub open spec fn rooms_carved(&self) -> bool {
        forall|i: int, p: (int, int)| #[trigger] self.in_room(i, p) ==> self.is_floor(p.0, p.1)
    }

    /// From every floor cell of every room a walk over floor leads to every
    /// floor cell of every room.
    pub open spec fn rooms_connected(&self) -> bool {
        forall|i: int, j: int, a: (int, int), b: (int, int)|
            #[trigger] self.in_room(i, a) && #[trigger] self.in_room(j, b) ==> connected(
                self.tiles@,
                self.width as int,
                self.height as int,
                a,
                b,
            )
    }

    /// Every floor cell keeps one cell clear of the edge of the grid: the
    /// level is walled in.
    pub open spec fn walled_in(&self) -> bool {
        forall|x: int, y: int| #[trigger]
            self.is_floor(x, y) ==> 1 <= x <= self.width - 2 && 1 <= y <= self.height - 2
    }

    /// What holds of a level while it is built and when it is done: the map
    /// is well formed, every room fits, no two rooms intersect, the floor of
    /// every room is carved, all the rooms are joined, and the level is
    /// walled in.
    pub open spec fn well_built(&self) -> bool {
        &&& self.wf()
        &&& forall|i: int| 0 <= i < self.rooms@.len() ==> self.fits(#[trigger] self.rooms@[i])
        &&& self.rooms_apart()
        &&& self.rooms_carved()
        &&& self.rooms_connected()
        &&& self.walled_in()
    }

    /// Whether `room` intersects none of the rooms of this level.
    pub fn room_is_free(&self, room: &Rect) -> (free: bool)
        ensures
            free == !clashes(self.rooms@, *room),
    {
        let mut free = true;
        let mut i: usize = 0;
        while i < self.rooms.len()
            invariant
                0 <= i <= self.rooms@.len(),
                free == !clashes(self.rooms@.take(i as int), *room),
            decreases self.rooms@.len() - i,
        {
            let ghost seen = self.rooms@.take(i as int);
            let ghost more = self.rooms@.take(i + 1);
            if room.intersect(&self.rooms[i]) {
                free = false;
                proof {
                    assert(room.intersects(&more[i as int]));
                }
            } else {
                proof {
                    if clashes(seen, *room) {
                        let k = choose|k: int| #![trigger seen[k]] 0 <= k < seen.len()
                            && room.intersects(&seen[k]);
                        assert(room.intersects(&more[k]));
                    }
                    if clashes(more, *room) {
                        let k = choose|k: int| #![trigger more[k]] 0 <= k < more.len()
                            && room.intersects(&more[k]);
                        assert(room.intersects(&seen[k]));
                    }
                }
            }
            i = i + 1;
        }
        proof {
            assert(self.rooms@.take(i as int) == self.rooms@);
        }
        free
    }

    /// Carves a corridor with one bend from `(from_x, from_y)` to
    /// `(to_x, to_y)`, as far as it lies on the grid: first along the row of
    /// the start and then along the column of the end if `horizontal_first`,
    /// else first along the column of the start and then along the row of
    /// the end.
    pub fn dig_corridor(
        &mut self,
        from_x: i32,
        from_y: i32,
        to_x: i32,
        to_y: i32,
        horizontal_first: bool,
    )
        requires
            old(self).wf(),
        ensures
            final(self).wf(),
            old(self).same_but_tiles(final(self)),
            final(self).tiles@ == with_corridor(
                old(self).tiles@,
                old(self).width as int,
                (from_x as int, from_y as int),
                (to_x as int, to_y as int),
                horizontal_first,
            ),
    {
        if horizontal_first {
            self.apply_horizontal_tunner(from_x, to_x, from_y);
            self.apply_vertical_tunnel(from_y, to_y, to_x);
        } else {
            self.apply_vertical_tunnel(from_y, to_y, from_x);
            self.apply_horizontal_tunner(from_x, to_x, to_y);
        }
    }

    /// Adds `room` to the level: carves its floor, joins its midpoint to
    /// that of the room added last, if there is one, by a corridor, and
    /// appends it to the rooms. Whether it intersects a room is not asked.
    pub fn add_room(&mut self, room: Rect, horizontal_first: bool)
        requires
            old(self).wf(),
        ensures
            final(self).wf(),
            final(self).width == old(self).width,
            final(self).height == old(self).height,
            final(self).revealed_tiles@ == old(self).revealed_tiles@,
            final(self).visible_tiles@ == old(self).visible_tiles@,
            final(self).rooms@ == old(self).rooms@.push(room),
            final(self).tiles@ == joined_tiles(
                old(self).tiles@,
                old(self).rooms@,
                old(self).width as int,
                room,
                horizontal_first,
            ),
            old(self).well_built() && old(self).fits(room) && !clashes(old(self).rooms@, room)
                ==> final(self).well_built(),
    {
        let ghost before = *self;
        self.apply_room_to_map(&room);
        if self.rooms.len() > 0 {
            let (new_x, new_y) = room.center();
            let (prev_x, prev_y) = self.rooms[self.rooms.len() - 1].center();
            self.dig_corridor(prev_x, prev_y, new_x, new_y, horizontal_first);
        }
        self.rooms.push(room);
        proof {
            if before.well_built() && before.fits(room) && !clashes(before.rooms@, room) {
                lemma_add_room_well_built(before, *self, room, horizontal_first);
            }
        }
    }

    /// Tries to place `room`: a room that intersects one of the level's
    /// rooms is turned down and nothing changes, any other is added.
    pub fn place_room(&mut self, room: Rect, horizontal_first: bool) -> (accepted: bool)
        requires
            old(self).wf(),
        ensures
            final(self).wf(),
            accepted == !clashes(old(self).rooms@, room),
            final(self).width == old(self).width,
            final(self).height == old(self).height,
            final(self).revealed_tiles@ == old(self).revealed_tiles@,
            final(self).visible_tiles@ == old(self).visible_tiles@,
            final(self).rooms@ == placed_rooms(old(self).rooms@, room),
            final(self).tiles@ == placed_tiles(
                old(self).tiles@,
                old(self).rooms@,
                old(self).width as int,
                room,
                horizontal_first,
            ),
            old(self).well_built() && old(self).fits(room) ==> final(self).well_built(),
    {
        if self.room_is_free(&room) {
            self.add_room(room, horizontal_first);
            true
        } else {
            false
        }
    }
}

/// Adding a room that fits and intersects no other to a level that is well
/// built leaves it well built.
pub proof fn lemma_add_room_well_built(
    before: GameMap,
    after: GameMap,
    room: Rect,
    horizontal_first: bool,
)
    requires
        before.well_built(),
        before.fits(room),
        !clashes(before.rooms@, room),
        after.wf(),
        after.width == before.width,
        after.height == before.height,
        after.rooms@ == before.rooms@.push(room),
        after.tiles@ == joined_tiles(
            before.tiles@,
            before.rooms@,
            before.width as int,
            room,
            horizontal_first,
        ),
    ensures
        after.well_built(),
{
    let width = before.width as int;
    let height = before.height as int;
    let old_tiles = before.tiles@;
    let roomy = with_room(old_tiles, width, room);
    let new_tiles = after.tiles@;
    let count = before.rooms@.len() as int;
    let mid = room.midpoint();
    crate::rect::lemma_midpoint_is_floor(room);
    lemma_carved_keeps_floor(
        old_tiles,
        width,
        room.x1 + 1,
        room.x2 as int,
        room.y1 + 1,
        room.y2 as int,
    );
    if count > 0 {
        let prev = before.rooms@.last();
        assert(before.fits(before.rooms@[count - 1]));
        crate::rect::lemma_midpoint_is_floor(prev);
        lemma_corridor_connects(roomy, width, height, prev.midpoint(), mid, horizontal_first);
    }
    assert(keeps_floor(old_tiles, new_tiles));
    assert(keeps_floor(roomy, new_tiles));
    // the level stays walled in
    assert forall|x: int, y: int| #[trigger] after.is_floor(x, y) implies 1 <= x <= width - 2 && 1
        <= y <= height - 2 by {
        lemma_carved_cell(
            old_tiles,
            width,
            height,
            room.x1 + 1,
            room.x2 as int,
            room.y1 + 1,
            room.y2 as int,
            x,
            y,
        );
        if count > 0 {
            let from = before.rooms@.last().midpoint();
            if horizontal_first {
                let half = with_row(roomy, width, from.0, mid.0, from.1);
                lemma_carved_cell(
                    roomy,
                    width,
                    height,
                    lower(from.0, mid.0),
                    upper(from.0, mid.0),
                    from.1,
                    from.1,
                    x,
                    y,
                );
                lemma_carved_cell(
                    half,
                    width,
                    height,
                    mid.0,
                    mid.0,
                    lower(from.1, mid.1),
                    upper(from.1, mid.1),
                    x,
                    y,
                );
            } else {
                let half = with_column(roomy, width, from.1, mid.1, from.0);
                lemma_carved_cell(
                    roomy,
                    width,
                    height,
                    from.0,
                    from.0,
                    lower(from.1, mid.1),
                    upper(from.1, mid.1),
                    x,
                    y,
                );
                lemma_carved_cell(
                    half,
                    width,
                    height,
                    lower(from.0, mid.0),
                    upper(from.0, mid.0),
                    mid.1,
                    mid.1,
                    x,
                    y,
                );
            }
        }
        if old_tiles[y * width + x] == TileType::Floor {
            assert(before.is_floor(x, y));
        }
    }
    // every room fits
    assert forall|i: int| 0 <= i < after.rooms@.len()
        implies after.fits(#[trigger] after.rooms@[i]) by {
        if i < count {
            assert(before.fits(before.rooms@[i]));
        }
    }
    // no two rooms intersect
    assert forall|i: int, j: int|
        #![trigger after.rooms@[i], after.rooms@[j]]
        0 <= i < after.rooms@.len() && 0 <= j < after.rooms@.len() && i != j
            implies !after.rooms@[i].intersects(
        &after.rooms@[j],
    ) by {
        if i < count && j < count {
            assert(!before.rooms@[i].intersects(&before.rooms@[j]));
        } else if i < count {
            assert(!room.intersects(&before.rooms@[i]));
        } else {
            assert(!room.intersects(&before.rooms@[j]));
        }
    }
    // the floor of the new room is floor
    assert forall|x: int, y: int|
        in_box(
            room.x1 + 1,
            room.x2 as int,
            room.y1 + 1,
            room.y2 as int,
            x,
            y,
        ) implies #[trigger] floor_at(
        new_tiles,
        width,
        height,
        x,
        y,
    ) by {
        lemma_carved_cell(
            old_tiles,
            width,
            height,
            room.x1 + 1,
            room.x2 as int,
            room.y1 + 1,
            room.y2 as int,
            x,
            y,
        );
    }
    assert forall|i: int, p: (int, int)| #[trigger] after.in_room(i, p) implies after.is_floor(
        p.0,
        p.1,
    ) by {
        if i < count {
            assert(before.in_room(i, p));
            assert(before.is_floor(p.0, p.1));
            crate::map::lemma_index_of_cell(width, height, p.0, p.1);
        } else {
            assert(in_box(room.x1 + 1, room.x2 as int, room.y1 + 1, room.y2 as int, p.0, p.1));
        }
    }
    // all rooms are joined
    assert forall|i: int, j: int, a: (int, int), b: (int, int)|
        #[trigger] after.in_room(i, a) && #[trigger] after.in_room(j, b) implies connected(
        new_tiles,
        width,
        height,
        a,
        b,
    ) by {
        if i < count && j < count {
            assert(before.in_room(i, a) && before.in_room(j, b));
            lemma_connected_kept(old_tiles, new_tiles, width, height, a, b);
        } else if i == count && j == count {
            lemma_box_connected(
                new_tiles,
                width,
                height,
                room.x1 + 1,
                room.x2 as int,
                room.y1 + 1,
                room.y2 as int,
                a,
                b,
            );
        } else {
            let prev = before.rooms@.last();
            let hub = prev.midpoint();
            let (far, near) = if i < count {
                (a, b)
            } else {
                (b, a)
            };
            let k = if i < count {
                i
            } else {
                j
            };
            assert(before.in_room(k, far));
            assert(before.in_room(count - 1, hub));
            lemma_connected_kept(old_tiles, new_tiles, width, height, far, hub);
            lemma_box_connected(
                new_tiles,
                width,
                height,
                room.x1 + 1,
                room.x2 as int,
                room.y1 + 1,
                room.y2 as int,
                mid,
                near,
            );
            lemma_connected_transitive(new_tiles, width, height, far, hub, mid);
            lemma_connected_transitive(new_tiles, width, height, far, mid, near);
            if i >= count {
                lemma_connected_symmetric(new_tiles, width, height, far, near);
            }
        }
    }
}


/// A grid of the given extent that is all wall.
pub open spec fn blank(width: int, height: int) -> Seq<TileType> {
    Seq::new((width * height) as nat, |i: int| TileType::Wall)
}

/// Whether the generator may draw `room`: its width and height are at least
/// `MIN_SIZE` and below `MAX_SIZE`, and it keeps one cell clear of the edge
/// of the level on every side.
pub open spec fn drawn(room: Rect) -> bool {
    &&& MIN_SIZE <= room.x2 - room.x1 < MAX_SIZE
    &&& MIN_SIZE <= room.y2 - room.y1 < MAX_SIZE
    &&& 0 <= room.x1
    &&& room.x2 <= MAP_WIDTH - 2
    &&& 0 <= room.y1
    &&& room.y2 <= MAP_HEIGHT - 2
}

/// The rooms of the level that a run of attempts builds. An attempt is a
/// room and the choice of how its corridor bends.
pub open spec fn built_rooms(attempts: Seq<(Rect, bool)>) -> Seq<Rect>
    decreases attempts.len(),
{
    if attempts.len() == 0 {
        Seq::empty()
    } else {
        placed_rooms(built_rooms(attempts.drop_last()), attempts.last().0)
    }
}

/// The tiles of the level that a run of attempts builds, from a grid that
/// is all wall.
pub open spec fn built_tiles(attempts: Seq<(Rect, bool)>) -> Seq<TileType>
    decreases attempts.len(),
{
    if attempts.len() == 0 {
        blank(MAP_WIDTH as int, MAP_HEIGHT as int)
    } else {
        placed_tiles(
            built_tiles(attempts.drop_last()),
            built_rooms(attempts.drop_last()),
            MAP_WIDTH as int,
            attempts.last().0,
            attempts.last().1,
        )
    }
}

/// Whether `map` is the level that `attempts` builds.
pub open spec fn built_by(map: &GameMap, attempts: Seq<(Rect, bool)>) -> bool {
    &&& forall|k: int| 0 <= k < attempts.len() ==> drawn((#[trigger] attempts[k]).0)
    &&& map.tiles@ == built_tiles(attempts)
    &&& map.rooms@ == built_rooms(attempts)
}

/// Whether `map` is a level as the generator builds them: of `MAP_WIDTH` by
/// `MAP_HEIGHT` cells, what some `MAX_ROOMS` attempts build, with at least
/// one room, each as the generator draws them, and well built, so that no
/// two rooms intersect and every room can be reached from every other.
pub open spec fn generated(map: &GameMap) -> bool {
    &&& map.width == MAP_WIDTH
    &&& map.height == MAP_HEIGHT
    &&& map.well_built()
    &&& 1 <= map.rooms@.len() <= MAX_ROOMS
    &&& forall|i: int| 0 <= i < map.rooms@.len() ==> drawn(#[trigger] map.rooms@[i])
    &&& exists|attempts: Seq<(Rect, bool)>|
        attempts.len() == MAX_ROOMS && #[trigger] built_by(map, attempts)
}

impl GameMap {
    /// Builds a level of `MAP_WIDTH` by `MAP_HEIGHT` cells. `MAX_ROOMS`
    /// times a room is drawn from `rng` and placed if it intersects none of
    /// the rooms placed before; a room that is placed is joined to the one
    /// placed before it by a corridor whose bend is drawn from `rng` too.
    ///
    /// Whatever `rng` yields, the level is the one that some `MAX_ROOMS`
    /// attempts build, it has at least one room, no two of its rooms
    /// intersect, and every room can be reached from every other.
    pub fn new_map_rooms_and_corridors(rng: &mut RandomNumberGenerator) -> (map: GameMap)
        ensures
            generated(&map),
            map.rooms@.len() >= 1,
            map.rooms_apart(),
            map.rooms_connected(),
            map.walled_in(),
            forall|i: int| 0 <= i < map.size() ==> !map.revealed_tiles@[i],
            forall|i: int| 0 <= i < map.size() ==> !map.visible_tiles@[i],
    {
        let mut map = GameMap::new(MAP_WIDTH, MAP_HEIGHT);
        let ghost mut attempts: Seq<(Rect, bool)> = Seq::empty();
        proof {
            assert(map.tiles@ =~= blank(MAP_WIDTH as int, MAP_HEIGHT as int));
            assert(map.rooms@ =~= Seq::<Rect>::empty());
            assert(map.rooms_carved());
            assert(map.walled_in());
            assert(map.rooms_connected());
        }
        let mut i: i32 = 0;
        while i < MAX_ROOMS
            invariant
                0 <= i <= MAX_ROOMS,
                map.width == MAP_WIDTH,
                map.height == MAP_HEIGHT,
                map.well_built(),
                map.rooms@.len() <= i,
                i >= 1 ==> map.rooms@.len() >= 1,
                forall|k: int| 0 <= k < map.rooms@.len() ==> drawn(#[trigger] map.rooms@[k]),
                forall|k: int| 0 <= k < map.size() ==> !map.revealed_tiles@[k],
                forall|k: int| 0 <= k < map.size() ==> !map.visible_tiles@[k],
                attempts.len() == i,
                built_by(&map, attempts),
            decreases MAX_ROOMS - i,
        {
            let w = roll_range(rng, MIN_SIZE, MAX_SIZE);
            let h = roll_range(rng, MIN_SIZE, MAX_SIZE);
            let x = roll_dice(rng, 1, map.width - w - 1) - 1;
            let y = roll_dice(rng, 1, map.height - h - 1) - 1;
            let new_room = Rect::new(x, y, w, h);
            let ghost before = map;
            let ghost mut bend = false;
            if map.room_is_free(&new_room) {
                let horizontal_first = if map.rooms.len() > 0 {
                    roll_range(rng, 0, 2) == 1
                } else {
                    false
                };
                map.add_room(new_room, horizontal_first);
                proof {
                    bend = horizontal_first;
                }
            }
            proof {
                let longer = attempts.push((new_room, bend));
                assert(longer.drop_last() =~= attempts);
                assert(longer.last() == (new_room, bend));
                assert forall|k: int| 0 <= k < longer.len()
                    implies drawn((#[trigger] longer[k]).0) by {
                    if k < attempts.len() {
                        assert(drawn(attempts[k].0));
                    }
                }
                assert forall|k: int| 0 <= k < map.rooms@.len() implies drawn(
                    #[trigger] map.rooms@[k],
                ) by {
                    if k < before.rooms@.len() {
                        assert(drawn(before.rooms@[k]));
                    }
                }
                attempts = longer;
            }
            i = i + 1;
        }
        map
    }
}

} // verus!
