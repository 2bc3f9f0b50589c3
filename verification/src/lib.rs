//! A room-and-corridor dungeon on a fixed-size tile grid, the visibility
//! bookkeeping of the creatures that walk it, and the reaction of monsters
//! to what they currently see.

pub mod actors;
pub mod behavior;
pub mod dungeon;
pub mod grid;
pub mod map;
pub mod paths;
pub mod random;
pub mod rect;
pub mod turn;
pub mod visibility;

pub use actors::Actor;
pub use actors::Position;
pub use actors::Role;
pub use actors::Viewshed;
pub use behavior::react;
pub use behavior::run_monster_ai;
pub use behavior::Reaction;
pub use dungeon::MAP_HEIGHT;
pub use dungeon::MAP_WIDTH;
pub use dungeon::MAX_ROOMS;
pub use dungeon::MAX_SIZE;
pub use dungeon::MIN_SIZE;
pub use grid::apply_horizontal_tunnel;
pub use grid::apply_room_to_map;
pub use grid::apply_vertical_tunnel;
pub use grid::new_map_rooms_and_corridors;
pub use grid::new_map_rooms_and_corridors2;
pub use grid::new_map_test;
pub use grid::splat_wall;
pub use grid::xy_idx;
pub use map::GameMap;
pub use map::TileType;
pub use rect::Rect;
pub use turn::run_systems;
pub use turn::tick;
pub use turn::try_tick;
pub use turn::is_fit_for_step;
pub use turn::RunState;
pub use visibility::is_ready_to_look;
pub use visibility::run_visibility;
pub use visibility::MAX_RANGE;
