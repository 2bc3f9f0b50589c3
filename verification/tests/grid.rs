use roguelike::apply_horizontal_tunnel;
use roguelike::apply_room_to_map;
use roguelike::apply_vertical_tunnel;
use roguelike::new_map_rooms_and_corridors;
use roguelike::new_map_rooms_and_corridors2;
use roguelike::new_map_test;
use roguelike::splat_wall;
use roguelike::xy_idx;
use roguelike::GameMap;
use roguelike::Rect;
use roguelike::TileType;
use rltk::RandomNumberGenerator;

fn floor_count(tiles: &[TileType]) -> usize {
    tiles.iter().filter(|t| **t == TileType::Floor).count()
}

#[test]
fn free_xy_idx_corners() {
    assert_eq!(xy_idx(0, 0), 0);
    assert_eq!(xy_idx(79, 49), 80 * 50 - 1);
    assert_eq!(xy_idx(40, 25), 2040);
    assert_eq!(xy_idx(0, 1), 80);
}

#[test]
fn test_map_has_walls_around_and_a_free_middle() {
    for seed in 0..10 {
        let mut rng = RandomNumberGenerator::seeded(seed);
        let map = new_map_test(&mut rng);
        assert_eq!(map.len(), 4000);
        for x in 0..80 {
            assert_eq!(map[xy_idx(x, 0)], TileType::Wall);
            assert_eq!(map[xy_idx(x, 49)], TileType::Wall);
        }
        for y in 0..50 {
            assert_eq!(map[xy_idx(0, y)], TileType::Wall);
            assert_eq!(map[xy_idx(79, y)], TileType::Wall);
        }
        assert_eq!(map[xy_idx(40, 25)], TileType::Floor);
        let inner_walls = 4000 - floor_count(&map) - (2 * 80 + 2 * 48);
        assert!(inner_walls >= 1 && inner_walls <= 400);
    }
}

#[test]
fn test_map_walls_come_from_the_rng() {
    let mut a = RandomNumberGenerator::seeded(5);
    let mut b = RandomNumberGenerator::seeded(5);
    let mut c = RandomNumberGenerator::seeded(6);
    let first = new_map_test(&mut a);
    assert_eq!(first, new_map_test(&mut b));
    assert_ne!(first, new_map_test(&mut c));
    let inner_walls = 4000 - floor_count(&first) - (2 * 80 + 2 * 48);
    assert!(inner_walls > 300);
}

#[test]
fn splat_wall_spares_the_middle() {
    let mut map = vec![TileType::Floor; 4000];
    splat_wall(&mut map, 40, 25);
    assert_eq!(floor_count(&map), 4000);
    splat_wall(&mut map, 41, 25);
    assert_eq!(map[xy_idx(41, 25)], TileType::Wall);
    assert_eq!(floor_count(&map), 3999);
    splat_wall(&mut map, 41, 25);
    assert_eq!(floor_count(&map), 3999);
}

#[test]
fn fixed_level_has_two_rooms_and_a_corridor() {
    let map = new_map_rooms_and_corridors();
    assert_eq!(map.len(), 4000);
    let mut expected = vec![TileType::Wall; 4000];
    for y in 16..=30 {
        for x in 21..=30 {
            expected[xy_idx(x, y)] = TileType::Floor;
        }
        for x in 36..=45 {
            expected[xy_idx(x, y)] = TileType::Floor;
        }
    }
    for x in 25..=40 {
        expected[xy_idx(x, 23)] = TileType::Floor;
    }
    assert_eq!(map, expected);
    assert_eq!(floor_count(&map), 150 + 150 + 5);
}

#[test]
fn free_carvers_match_the_map_methods() {
    let mut tiles = vec![TileType::Wall; 4000];
    let mut map = GameMap::new(80, 50);
    let room = Rect::new(10, 10, 8, 7);
    apply_room_to_map(&room, &mut tiles);
    map.apply_room_to_map(&room);
    apply_horizontal_tunnel(&mut tiles, 60, 14, 13);
    map.apply_horizontal_tunner(60, 14, 13);
    apply_vertical_tunnel(&mut tiles, 13, 40, 60);
    map.apply_vertical_tunnel(13, 40, 60);
    assert_eq!(tiles, map.tiles);
    assert_eq!(floor_count(&tiles), 56 + (60 - 18) + (40 - 13));
}

#[test]
fn free_carvers_stop_at_the_edge() {
    let mut tiles = vec![TileType::Wall; 4000];
    apply_horizontal_tunnel(&mut tiles, -5, 100, 0);
    assert_eq!(floor_count(&tiles), 80);
    assert_eq!(tiles[xy_idx(0, 0)], TileType::Floor);
    apply_vertical_tunnel(&mut tiles, -5, 100, 79);
    assert_eq!(floor_count(&tiles), 80 + 49);
    apply_horizontal_tunnel(&mut tiles, 0, 79, 50);
    apply_vertical_tunnel(&mut tiles, 0, 49, 80);
    apply_room_to_map(&Rect::new(79, 49, 5, 5), &mut tiles);
    assert_eq!(floor_count(&tiles), 80 + 49);
}

#[test]
fn rooms_and_tiles_are_those_of_the_map() {
    let mut a = RandomNumberGenerator::seeded(11);
    let mut b = RandomNumberGenerator::seeded(11);
    let (rooms, tiles) = new_map_rooms_and_corridors2(&mut a);
    let map = GameMap::new_map_rooms_and_corridors(&mut b);
    assert_eq!(rooms, map.rooms);
    assert_eq!(tiles, map.tiles);
    assert!(!rooms.is_empty());
    for (i, r) in rooms.iter().enumerate() {
        for (j, other) in rooms.iter().enumerate() {
            if i != j {
                assert!(!r.intersect(other));
            }
        }
    }
}
