use roguelike::GameMap;
use roguelike::Rect;
use roguelike::TileType;
use roguelike::MAP_HEIGHT;
use roguelike::MAP_WIDTH;
use roguelike::MAX_ROOMS;
use roguelike::MAX_SIZE;
use roguelike::MIN_SIZE;
use rltk::RandomNumberGenerator;

fn is_floor(map: &GameMap, x: i32, y: i32) -> bool {
    map.tiles[map.xy_idx(x, y)] == TileType::Floor
}

fn count_floor(map: &GameMap) -> usize {
    map.tiles.iter().filter(|t| **t == TileType::Floor).count()
}

/// The cells that can be walked to from `start` over floor.
fn reachable(map: &GameMap, start: (i32, i32)) -> Vec<bool> {
    let mut seen = vec![false; map.tiles.len()];
    let mut queue = vec![start];
    seen[map.xy_idx(start.0, start.1)] = true;
    while let Some((x, y)) = queue.pop() {
        for (dx, dy) in [(1, 0), (-1, 0), (0, 1), (0, -1)] {
            let (nx, ny) = (x + dx, y + dy);
            if nx < 0 || ny < 0 || nx >= map.width || ny >= map.height {
                continue;
            }
            let idx = map.xy_idx(nx, ny);
            if !seen[idx] && map.tiles[idx] == TileType::Floor {
                seen[idx] = true;
                queue.push((nx, ny));
            }
        }
    }
    seen
}

#[test]
fn generated_map_has_the_fixed_extent() {
    let mut rng = RandomNumberGenerator::seeded(1);
    let map = GameMap::new_map_rooms_and_corridors(&mut rng);
    assert_eq!(map.width, 80);
    assert_eq!(map.height, 50);
    assert_eq!(MAP_WIDTH, 80);
    assert_eq!(MAP_HEIGHT, 50);
    assert_eq!(map.tiles.len(), 4000);
    assert_eq!(map.revealed_tiles, vec![false; 4000]);
    assert_eq!(map.visible_tiles, vec![false; 4000]);
}

#[test]
fn generated_rooms_never_intersect() {
    for seed in 0..40 {
        let mut rng = RandomNumberGenerator::seeded(seed);
        let map = GameMap::new_map_rooms_and_corridors(&mut rng);
        for (i, a) in map.rooms.iter().enumerate() {
            for (j, b) in map.rooms.iter().enumerate() {
                if i != j {
                    assert!(!a.intersect(b), "seed {}: rooms {} and {}", seed, i, j);
                }
            }
        }
    }
}

#[test]
fn generated_rooms_are_all_connected() {
    for seed in 0..40 {
        let mut rng = RandomNumberGenerator::seeded(seed);
        let map = GameMap::new_map_rooms_and_corridors(&mut rng);
        let seen = reachable(&map, map.rooms[0].center());
        for room in map.rooms.iter() {
            for y in room.y1 + 1..=room.y2 {
                for x in room.x1 + 1..=room.x2 {
                    assert!(is_floor(&map, x, y));
                    assert!(seen[map.xy_idx(x, y)], "seed {}: ({}, {})", seed, x, y);
                }
            }
        }
    }
}

#[test]
fn generated_map_has_a_room() {
    for seed in 0..40 {
        let mut rng = RandomNumberGenerator::seeded(seed);
        let map = GameMap::new_map_rooms_and_corridors(&mut rng);
        assert!(!map.rooms.is_empty());
        assert!(map.rooms.len() <= MAX_ROOMS as usize);
    }
}

#[test]
fn generated_rooms_keep_size_and_margin() {
    for seed in 0..40 {
        let mut rng = RandomNumberGenerator::seeded(seed);
        let map = GameMap::new_map_rooms_and_corridors(&mut rng);
        for room in map.rooms.iter() {
            let (w, h) = (room.x2 - room.x1, room.y2 - room.y1);
            assert!(MIN_SIZE <= w && w < MAX_SIZE);
            assert!(MIN_SIZE <= h && h < MAX_SIZE);
            assert!(0 <= room.x1 && room.x2 <= 78);
            assert!(0 <= room.y1 && room.y2 <= 48);
        }
    }
}

#[test]
fn generated_map_keeps_its_edge_wall() {
    let mut rng = RandomNumberGenerator::seeded(7);
    let map = GameMap::new_map_rooms_and_corridors(&mut rng);
    for x in 0..80 {
        assert!(!is_floor(&map, x, 0));
        assert!(!is_floor(&map, x, 49));
    }
    for y in 0..50 {
        assert!(!is_floor(&map, 0, y));
        assert!(!is_floor(&map, 79, y));
    }
}

#[test]
fn generator_draws_from_the_rng() {
    let mut rng = RandomNumberGenerator::seeded(3);
    let map = GameMap::new_map_rooms_and_corridors(&mut rng);
    assert!(map.rooms.len() > 1);
    assert!(map.rooms.iter().any(|r| r.x2 - r.x1 != MIN_SIZE || r.y2 - r.y1 != MIN_SIZE));
    assert!(map.rooms.iter().any(|r| r.x1 != 0 || r.y1 != 0));
    let first = map.rooms[0];
    assert!(map.rooms.iter().any(|r| r.x1 != first.x1));
    assert!(map.rooms.iter().any(|r| r.y1 != first.y1));
}

#[test]
fn generator_is_fixed_by_the_seed() {
    let mut a = RandomNumberGenerator::seeded(99);
    let mut b = RandomNumberGenerator::seeded(99);
    let first = GameMap::new_map_rooms_and_corridors(&mut a);
    let second = GameMap::new_map_rooms_and_corridors(&mut b);
    assert_eq!(first.tiles, second.tiles);
    assert_eq!(first.rooms, second.rooms);
    let mut c = RandomNumberGenerator::seeded(100);
    let third = GameMap::new_map_rooms_and_corridors(&mut c);
    assert_ne!(first.rooms, third.rooms);
}

#[test]
fn room_is_free_asks_every_room() {
    let mut map = GameMap::new(40, 20);
    assert!(map.room_is_free(&Rect::new(1, 1, 6, 6)));
    map.add_room(Rect::new(1, 1, 6, 6), true);
    map.add_room(Rect::new(20, 1, 6, 6), true);
    assert!(!map.room_is_free(&Rect::new(5, 5, 6, 6)));
    assert!(!map.room_is_free(&Rect::new(7, 1, 6, 6)));
    assert!(!map.room_is_free(&Rect::new(24, 6, 6, 6)));
    assert!(map.room_is_free(&Rect::new(8, 1, 6, 6)));
    assert!(map.room_is_free(&Rect::new(1, 8, 6, 6)));
}

#[test]
fn first_room_gets_no_corridor() {
    let mut map = GameMap::new(20, 20);
    assert!(map.place_room(Rect::new(2, 2, 6, 6), true));
    assert_eq!(map.rooms, vec![Rect::new(2, 2, 6, 6)]);
    assert_eq!(count_floor(&map), 36);
    for y in 3..=8 {
        for x in 3..=8 {
            assert!(is_floor(&map, x, y));
        }
    }
}

#[test]
fn clashing_room_changes_nothing() {
    let mut map = GameMap::new(30, 20);
    assert!(map.place_room(Rect::new(2, 2, 6, 6), true));
    let tiles = map.tiles.clone();
    assert!(!map.place_room(Rect::new(8, 2, 6, 6), true));
    assert!(!map.place_room(Rect::new(4, 4, 9, 9), false));
    assert_eq!(map.tiles, tiles);
    assert_eq!(map.rooms, vec![Rect::new(2, 2, 6, 6)]);
}

#[test]
fn corridor_horizontal_first_has_both_legs() {
    let mut map = GameMap::new(40, 30);
    assert!(map.place_room(Rect::new(1, 1, 6, 6), true));
    assert!(map.place_room(Rect::new(25, 15, 6, 8), true));
    assert_eq!(map.rooms[0].center(), (4, 4));
    assert_eq!(map.rooms[1].center(), (28, 19));
    for x in 4..=28 {
        assert!(is_floor(&map, x, 4), "row leg at {}", x);
    }
    for y in 4..=19 {
        assert!(is_floor(&map, 28, y), "column leg at {}", y);
    }
    assert!(!is_floor(&map, 4, 10));
    assert!(!is_floor(&map, 10, 19));
    assert_eq!(count_floor(&map), 36 + 48 + (28 - 7) + (15 - 4));
}

#[test]
fn corridor_vertical_first_has_both_legs() {
    let mut map = GameMap::new(40, 30);
    assert!(map.place_room(Rect::new(1, 1, 6, 6), false));
    assert!(map.place_room(Rect::new(25, 15, 6, 8), false));
    for y in 4..=19 {
        assert!(is_floor(&map, 4, y), "column leg at {}", y);
    }
    for x in 4..=28 {
        assert!(is_floor(&map, x, 19), "row leg at {}", x);
    }
    assert!(!is_floor(&map, 10, 4));
    assert!(!is_floor(&map, 28, 10));
    assert_eq!(count_floor(&map), 36 + 48 + (19 - 7) + (25 - 4));
}

#[test]
fn corridor_runs_back_to_the_room_before() {
    let mut map = GameMap::new(40, 30);
    map.add_room(Rect::new(25, 15, 6, 8), true);
    map.add_room(Rect::new(1, 1, 6, 6), true);
    for x in 4..=28 {
        assert!(is_floor(&map, x, 19));
    }
    for y in 4..=19 {
        assert!(is_floor(&map, 4, y));
    }
    let seen = reachable(&map, (28, 19));
    assert!(seen[map.xy_idx(2, 2)]);
    assert!(seen[map.xy_idx(7, 7)]);
}

#[test]
fn dig_corridor_between_any_two_cells() {
    let mut map = GameMap::new(12, 9);
    map.dig_corridor(9, 7, 2, 1, true);
    let mut expected = Vec::new();
    for y in 1..=7 {
        expected.push((2, y));
    }
    for x in 3..=9 {
        expected.push((x, 7));
    }
    expected.sort();
    let mut got = Vec::new();
    for y in 0..9 {
        for x in 0..12 {
            if is_floor(&map, x, y) {
                got.push((x, y));
            }
        }
    }
    got.sort();
    assert_eq!(got, expected);
}

#[test]
fn add_room_does_not_ask_for_clashes() {
    let mut map = GameMap::new(30, 20);
    map.add_room(Rect::new(2, 2, 6, 6), true);
    map.add_room(Rect::new(4, 4, 6, 6), true);
    assert_eq!(map.rooms.len(), 2);
    assert!(is_floor(&map, 10, 10));
}
