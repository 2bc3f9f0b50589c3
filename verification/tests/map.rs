use roguelike::GameMap;
use roguelike::Rect;
use roguelike::TileType;

fn floor_cells(map: &GameMap) -> Vec<(i32, i32)> {
    let mut cells = Vec::new();
    for y in 0..map.height {
        for x in 0..map.width {
            if map.tiles[map.xy_idx(x, y)] == TileType::Floor {
                cells.push((x, y));
            }
        }
    }
    cells
}

#[test]
fn xy_idx_corners() {
    let map = GameMap::new(80, 50);
    assert_eq!(map.xy_idx(0, 0), 0);
    assert_eq!(map.xy_idx(79, 49), 80 * 50 - 1);
    let small = GameMap::new(7, 3);
    assert_eq!(small.xy_idx(0, 0), 0);
    assert_eq!(small.xy_idx(6, 2), 7 * 3 - 1);
}

#[test]
fn xy_idx_is_row_major() {
    let map = GameMap::new(80, 50);
    assert_eq!(map.xy_idx(1, 0), 1);
    assert_eq!(map.xy_idx(0, 1), 80);
    assert_eq!(map.xy_idx(40, 25), 2040);
}

#[test]
fn new_map_is_all_wall_and_unseen() {
    let map = GameMap::new(7, 5);
    assert_eq!(map.width, 7);
    assert_eq!(map.height, 5);
    assert_eq!(map.tiles, vec![TileType::Wall; 35]);
    assert_eq!(map.revealed_tiles, vec![false; 35]);
    assert_eq!(map.visible_tiles, vec![false; 35]);
    assert!(map.rooms.is_empty());
}

#[test]
fn default_map_is_empty() {
    let map = GameMap::default();
    assert_eq!(map.width, 0);
    assert_eq!(map.height, 0);
    assert!(map.tiles.is_empty());
    assert!(map.rooms.is_empty());
    assert!(map.revealed_tiles.is_empty());
    assert!(map.visible_tiles.is_empty());
}

#[test]
fn dimensions_are_width_and_height() {
    assert_eq!(GameMap::new(80, 50).dimensions(), rltk::Point { x: 80, y: 50 });
    assert_eq!(GameMap::new(3, 9).dimensions(), rltk::Point { x: 3, y: 9 });
}

#[test]
fn is_opaque_tells_wall_from_floor() {
    let mut map = GameMap::new(10, 10);
    map.apply_room_to_map(&Rect::new(1, 1, 3, 3));
    let wall = map.xy_idx(1, 1);
    let floor = map.xy_idx(2, 2);
    assert!(map.is_opaque(wall));
    assert!(!map.is_opaque(floor));
    assert!(map.is_opaque(100));
    assert!(map.is_opaque(usize::MAX));
}

#[test]
fn room_floor_leaves_first_row_and_column() {
    let mut map = GameMap::new(12, 10);
    map.apply_room_to_map(&Rect::new(2, 3, 4, 3));
    let mut expected = Vec::new();
    for y in 4..=6 {
        for x in 3..=6 {
            expected.push((x, y));
        }
    }
    assert_eq!(floor_cells(&map), expected);
}

#[test]
fn room_beyond_the_grid_is_cut_off() {
    let mut map = GameMap::new(6, 5);
    map.apply_room_to_map(&Rect { x1: 3, y1: 2, x2: 40, y2: 40 });
    assert_eq!(floor_cells(&map), vec![(4, 3), (5, 3), (4, 4), (5, 4)]);
    let mut other = GameMap::new(6, 5);
    other.apply_room_to_map(&Rect { x1: -9, y1: -9, x2: 1, y2: 0 });
    assert_eq!(floor_cells(&other), vec![(0, 0), (1, 0)]);
    let mut none = GameMap::new(6, 5);
    none.apply_room_to_map(&Rect { x1: i32::MAX, y1: i32::MAX, x2: i32::MAX, y2: i32::MAX });
    assert!(floor_cells(&none).is_empty());
}

#[test]
fn horizontal_tunnel_in_either_order() {
    let mut map = GameMap::new(10, 4);
    map.apply_horizontal_tunner(7, 3, 2);
    assert_eq!(floor_cells(&map), vec![(3, 2), (4, 2), (5, 2), (6, 2), (7, 2)]);
    let mut other = GameMap::new(10, 4);
    other.apply_horizontal_tunner(3, 7, 2);
    assert_eq!(other.tiles, map.tiles);
}

#[test]
fn vertical_tunnel_in_either_order() {
    let mut map = GameMap::new(5, 8);
    map.apply_vertical_tunnel(6, 2, 1);
    assert_eq!(floor_cells(&map), vec![(1, 2), (1, 3), (1, 4), (1, 5), (1, 6)]);
    let mut other = GameMap::new(5, 8);
    other.apply_vertical_tunnel(2, 6, 1);
    assert_eq!(other.tiles, map.tiles);
}

#[test]
fn tunnels_stop_at_the_edge() {
    let mut map = GameMap::new(5, 4);
    map.apply_horizontal_tunner(-3, 9, 1);
    assert_eq!(floor_cells(&map), vec![(0, 1), (1, 1), (2, 1), (3, 1), (4, 1)]);
    map.apply_horizontal_tunner(0, 4, 7);
    map.apply_horizontal_tunner(0, 4, -1);
    map.apply_vertical_tunnel(0, 3, 5);
    map.apply_vertical_tunnel(i32::MIN, i32::MAX, -1);
    assert_eq!(floor_cells(&map), vec![(0, 1), (1, 1), (2, 1), (3, 1), (4, 1)]);
    map.apply_vertical_tunnel(i32::MIN, i32::MAX, 0);
    assert_eq!(
        floor_cells(&map),
        vec![(0, 0), (0, 1), (1, 1), (2, 1), (3, 1), (4, 1), (0, 2), (0, 3)]
    );
}

#[test]
fn tunnel_reaches_the_first_cell() {
    let mut map = GameMap::new(5, 4);
    map.apply_horizontal_tunner(0, 1, 0);
    assert_eq!(floor_cells(&map), vec![(0, 0), (1, 0)]);
}

#[test]
fn carving_leaves_the_flags_alone() {
    let mut map = GameMap::new(10, 10);
    map.revealed_tiles[5] = true;
    map.visible_tiles[5] = true;
    map.apply_room_to_map(&Rect::new(0, 0, 4, 4));
    map.apply_horizontal_tunner(0, 9, 8);
    map.apply_vertical_tunnel(0, 9, 8);
    let mut flags = vec![false; 100];
    flags[5] = true;
    assert_eq!(map.revealed_tiles, flags);
    assert_eq!(map.visible_tiles, flags);
    assert!(map.rooms.is_empty());
}

#[test]
fn is_wf_tells_a_sound_map() {
    let mut map = GameMap::new(6, 4);
    assert!(map.is_wf());
    map.apply_room_to_map(&Rect::new(0, 0, 3, 2));
    map.revealed_tiles[7] = true;
    assert!(map.is_wf());
    map.visible_tiles[7] = true;
    assert!(map.is_wf());
    map.visible_tiles[8] = true;
    assert!(!map.is_wf());
    map.revealed_tiles[8] = true;
    assert!(map.is_wf());
}

#[test]
fn is_wf_tells_a_map_out_of_shape() {
    assert!(!GameMap::default().is_wf());
    let mut short = GameMap::new(6, 4);
    short.tiles.pop();
    assert!(!short.is_wf());
    let mut long = GameMap::new(6, 4);
    long.revealed_tiles.push(false);
    assert!(!long.is_wf());
    let mut odd = GameMap::new(6, 4);
    odd.visible_tiles.clear();
    assert!(!odd.is_wf());
    let mut flat = GameMap::new(6, 4);
    flat.height = 0;
    assert!(!flat.is_wf());
    let mut turned = GameMap::new(6, 4);
    turned.width = -6;
    turned.height = -4;
    assert!(!turned.is_wf());
    let mut vast = GameMap::new(6, 4);
    vast.width = i32::MAX;
    vast.height = i32::MAX;
    assert!(!vast.is_wf());
    let mut swapped = GameMap::new(6, 4);
    swapped.width = 8;
    swapped.height = 3;
    assert!(swapped.is_wf());
    swapped.height = 4;
    assert!(!swapped.is_wf());
}

#[test]
fn on_map_is_the_grid() {
    let map = GameMap::new(6, 4);
    for (x, y) in [(0, 0), (5, 3), (5, 0), (0, 3), (2, 2)] {
        assert!(map.on_map(x, y));
    }
    for (x, y) in [(-1, 0), (0, -1), (6, 0), (0, 4), (6, 4), (i32::MAX, 0), (0, i32::MIN)] {
        assert!(!map.on_map(x, y));
    }
}
