//! Levels as bare rows of tiles, 80 cells wide and 50 high, for callers
//! that keep no map around them.

use vstd::prelude::*;
use rltk::RandomNumberGenerator;
use crate::dungeon::generated;
use crate::dungeon::with_column;
use crate::dungeon::with_room;
use crate::dungeon::with_row;
use crate::dungeon::MAP_HEIGHT;
use crate::dungeon::MAP_WIDTH;
use crate::map::carve_box;
use crate::map::lemma_cell_of_index;
use crate::map::GameMap;
use crate::map::TileType;
use crate::random::roll_dice;
use crate::rect::Rect;

verus! {

/// How many walls `new_map_test` throws into the level.
pub const SPLATS: i32 = 400;

/// Whether `(x, y)` lies on the edge of the level.
pub open spec fn on_edge(x: int, y: int) -> bool {
    x == 0 || x == MAP_WIDTH - 1 || y == 0 || y == MAP_HEIGHT - 1
}

/// The index of the cell in the middle of the level, which is kept free.
pub open spec fn middle() -> int {
    25 * MAP_WIDTH + 40
}

/// Whether one of `splats` is the cell with index `i`.
pub open spec fn splat_at(splats: Seq<(int, int)>, i: int) -> bool {
    exists|k: int| 0 <= k < splats.len() && (#[trigger] splats[k]).1 * MAP_WIDTH + splats[k].0 == i
}

/// The level that is floor but for a wall along its edge and a wall on each
/// of `splats` other than the middle.
pub open spec fn splattered(splats: Seq<(int, int)>) -> Seq<TileType> {
    Seq::new(
        (MAP_WIDTH * MAP_HEIGHT) as nat,
        |i: int|
            if on_edge(i % (MAP_WIDTH as int), i / (MAP_WIDTH as int)) || (i != middle()
                && splat_at(splats, i)) {
                TileType::Wall
            } else {
                TileType::Floor
            },
    )
}

/// The row-major index of the cell `(x, y)` of a level.
pub fn xy_idx(x: i32, y: i32) -> (idx: usize)
    requires
        0 <= x < MAP_WIDTH,
        0 <= y < MAP_HEIGHT,
    ensures
        idx == y * MAP_WIDTH + x,
        idx < MAP_WIDTH * MAP_HEIGHT,
{
    (y as usize * 80) + x as usize
}

/// Puts a wall on the cell `(x, y)` of a level, unless it is the middle.
pub fn splat_wall(map: &mut Vec<TileType>, x: i32, y: i32)
    requires
        old(map)@.len() == MAP_WIDTH * MAP_HEIGHT,
        0 <= x < MAP_WIDTH,
        0 <= y < MAP_HEIGHT,
    ensures
        final(map)@ == (if y * MAP_WIDTH + x == middle() {
            old(map)@
        } else {
            old(map)@.update(y * MAP_WIDTH + x, TileType::Wall)
        }),
{
    let idx = xy_idx(x, y);
    if idx != xy_idx(40, 25) {
        map[idx] = TileType::Wall;
    }
}

/// A level for trying things out: floor within a wall along its edge, with
/// `SPLATS` walls thrown in at cells drawn from `rng`, and the middle free.
pub fn new_map_test(rng: &mut RandomNumberGenerator) -> (map: Vec<TileType>)
    ensures
        exists|splats: Seq<(int, int)>|
            {
                &&& splats.len() == SPLATS
                &&& forall|k: int|
                    0 <= k < splats.len() ==> 1 <= (#[trigger] splats[k]).0 < MAP_WIDTH && 1
                        <= splats[k].1 < MAP_HEIGHT
                &&& map@ == #[trigger] splattered(splats)
            },
        map@.len() == MAP_WIDTH * MAP_HEIGHT,
        map@[middle()] == TileType::Floor,
        forall|x: int, y: int|
            0 <= x < MAP_WIDTH && 0 <= y < MAP_HEIGHT && on_edge(x, y) ==> #[trigger] map@[y
                * MAP_WIDTH + x] == TileType::Wall,
{
    let mut map = vec![TileType::Floor; 80 * 50];
    let mut x: i32 = 0;
    while x < 80
        invariant
            0 <= x <= 80,
            map@.len() == MAP_WIDTH * MAP_HEIGHT,
            forall|i: int|
                0 <= i < map@.len() ==> #[trigger] map@[i] == (if (i / 80 == 0 || i / 80 == 49) && i
                    % 80 < x {
                    TileType::Wall
                } else {
                    TileType::Floor
                }),
        decreases 80 - x,
    {
        let top = xy_idx(x, 0);
        let bottom = xy_idx(x, 49);
        map[top] = TileType::Wall;
        map[bottom] = TileType::Wall;
        proof {
            assert forall|i: int| 0 <= i < map@.len() implies #[trigger] map@[i] == (if (i / 80 == 0
                || i / 80 == 49) && i % 80 < x + 1 {
                TileType::Wall
            } else {
                TileType::Floor
            }) by {
                lemma_cell_of_index(80, 50, i);
            }
        }
        x = x + 1;
    }
    let mut y: i32 = 0;
    while y < 50
        invariant
            0 <= y <= 50,
            map@.len() == MAP_WIDTH * MAP_HEIGHT,
            forall|i: int|
                0 <= i < map@.len() ==> #[trigger] map@[i] == (if i / 80 == 0 || i / 80 == 49 || ((i
                    % 80 == 0 || i % 80 == 79) && i / 80 < y) {
                    TileType::Wall
                } else {
                    TileType::Floor
                }),
        decreases 50 - y,
    {
        let left = xy_idx(0, y);
        let right = xy_idx(79, y);
        map[left] = TileType::Wall;
        map[right] = TileType::Wall;
        proof {
            assert forall|i: int| 0 <= i < map@.len() implies #[trigger] map@[i] == (if i / 80 == 0
                || i / 80 == 49 || ((i % 80 == 0 || i % 80 == 79) && i / 80 < y + 1) {
                TileType::Wall
            } else {
                TileType::Floor
            }) by {
                lemma_cell_of_index(80, 50, i);
            }
        }
        y = y + 1;
    }
    let ghost mut splats: Seq<(int, int)> = Seq::empty();
    proof {
        assert forall|i: int| 0 <= i < map@.len() implies map@[i] == splattered(splats)[i] by {
            lemma_cell_of_index(80, 50, i);
        }
        assert(map@ =~= splattered(splats));
    }
    let mut n: i32 = 0;
    while n < SPLATS
        invariant
            0 <= n <= SPLATS,
            splats.len() == n,
            forall|k: int|
                0 <= k < splats.len() ==> 1 <= (#[trigger] splats[k]).0 < MAP_WIDTH && 1
                    <= splats[k].1 < MAP_HEIGHT,
            map@ == splattered(splats),
        decreases SPLATS - n,
    {
        let x = roll_dice(rng, 1, 79);
        let y = roll_dice(rng, 1, 49);
        splat_wall(&mut map, x, y);
        proof {
            let more = splats.push((x as int, y as int));
            let idx = y * MAP_WIDTH + x;
            assert(more[n as int] == (x as int, y as int));
            assert forall|i: int| splat_at(more, i) <==> splat_at(splats, i) || i == idx by {
                if splat_at(splats, i) {
                    let k = choose|k: int|
                        0 <= k < splats.len() && (#[trigger] splats[k]).1 * MAP_WIDTH + splats[k].0
                            == i;
                    assert(more[k] == splats[k]);
                }
                if splat_at(more, i) {
                    let k = choose|k: int|
                        0 <= k < more.len() && (#[trigger] more[k]).1 * MAP_WIDTH + more[k].0 == i;
                    if k < n {
                        assert(splats[k] == more[k]);
                    }
                }
            }
            assert(map@ =~= splattered(more));
            splats = more;
        }
        n = n + 1;
    }
    proof {
        assert forall|x: int, y: int|
            0 <= x < MAP_WIDTH && 0 <= y < MAP_HEIGHT && on_edge(x, y) implies #[trigger] map@[y
            * MAP_WIDTH + x] == TileType::Wall by {
            crate::map::lemma_index_of_cell(MAP_WIDTH as int, MAP_HEIGHT as int, x, y);
        }
    }
    map
}

/// Carves the floor of `room` into a level: the cells `(x, y)` of the level
/// with `room.x1 < x <= room.x2` and `room.y1 < y <= room.y2`.
pub fn apply_room_to_map(room: &Rect, map: &mut Vec<TileType>)
    requires
        old(map)@.len() == MAP_WIDTH * MAP_HEIGHT,
    ensures
        final(map)@ == with_room(old(map)@, MAP_WIDTH as int, *room),
{
    carve_box(
        map,
        MAP_WIDTH,
        MAP_HEIGHT,
        room.x1 as i64 + 1,
        room.x2 as i64,
        room.y1 as i64 + 1,
        room.y2 as i64,
    );
}

/// Carves the cells of row `y` of a level between the columns `x1` and
/// `x2`, both included and in either order, as far as they lie on the level.
pub fn apply_horizontal_tunnel(map: &mut Vec<TileType>, x1: i32, x2: i32, y: i32)
    requires
        old(map)@.len() == MAP_WIDTH * MAP_HEIGHT,
    ensures
        final(map)@ == with_row(old(map)@, MAP_WIDTH as int, x1 as int, x2 as int, y as int),
{
    let (lo, hi) = if x1 <= x2 {
        (x1, x2)
    } else {
        (x2, x1)
    };
    carve_box(map, MAP_WIDTH, MAP_HEIGHT, lo as i64, hi as i64, y as i64, y as i64);
}

/// Carves the cells of column `x` of a level between the rows `y1` and
/// `y2`, both included and in either order, as far as they lie on the level.
pub fn apply_vertical_tunnel(map: &mut Vec<TileType>, y1: i32, y2: i32, x: i32)
    requires
        old(map)@.len() == MAP_WIDTH * MAP_HEIGHT,
    ensures
        final(map)@ == with_column(old(map)@, MAP_WIDTH as int, y1 as int, y2 as int, x as int),
{
    let (lo, hi) = if y1 <= y2 {
        (y1, y2)
    } else {
        (y2, y1)
    };
    carve_box(map, MAP_WIDTH, MAP_HEIGHT, x as i64, x as i64, lo as i64, hi as i64);
}

/// The first of the two rooms of the fixed level.
pub open spec fn west_room() -> Rect {
    Rect { x1: 20, y1: 15, x2: 30, y2: 30 }
}

/// The second of the two rooms of the fixed level.
pub open spec fn east_room() -> Rect {
    Rect { x1: 35, y1: 15, x2: 45, y2: 30 }
}

/// A fixed level: two rooms side by side in a grid of wall, joined by a
/// corridor along row 23.
pub fn new_map_rooms_and_corridors() -> (map: Vec<TileType>)
    ensures
        map@ == with_row(
            with_room(
                with_room(
                    crate::dungeon::blank(MAP_WIDTH as int, MAP_HEIGHT as int),
                    MAP_WIDTH as int,
                    west_room(),
                ),
                MAP_WIDTH as int,
                east_room(),
            ),
            MAP_WIDTH as int,
            25,
            40,
            23,
        ),
{
    let mut map = vec![TileType::Wall; 80 * 50];
    proof {
        assert(map@ =~= crate::dungeon::blank(MAP_WIDTH as int, MAP_HEIGHT as int));
    }
    let room1 = Rect::new(20, 15, 10, 15);
    let room2 = Rect::new(35, 15, 10, 15);
    apply_room_to_map(&room1, &mut map);
    apply_room_to_map(&room2, &mut map);
    apply_horizontal_tunnel(&mut map, 25, 40, 23);
    map
}

/// Builds a level as `GameMap::new_map_rooms_and_corridors` does and hands
/// out its rooms and its tiles.
pub fn new_map_rooms_and_corridors2(rng: &mut RandomNumberGenerator) -> (level: (
    Vec<Rect>,
    Vec<TileType>,
))
    ensures
        exists|map: GameMap| #[trigger]
            generated(&map) && map.rooms@ == level.0@ && map.tiles@ == level.1@,
{
    let map = GameMap::new_map_rooms_and_corridors(rng);
    proof {
        assert(generated(&map));
    }
    (map.rooms, map.tiles)
}

} // verus!
