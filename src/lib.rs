//! Minesweeper board engine: a grid of tiles with randomly placed bombs and
//! their neighbour counts, the table of covered tiles, the cascading reveal,
//! and the mapping from a pointer position to a grid cell.

pub mod app_state;
pub mod board;
pub mod coordinates;
pub mod input;
mod random;
pub mod text;
pub mod tile;
pub mod tile_map;
pub mod uncover;

pub use app_state::{state_handling, AppState};
pub use board::{Board, Rect};
pub use coordinates::Coordinates;
pub use input::{input_handling, BoardAction, MouseButton};
pub use tile::Tile;
pub use tile_map::{ConfigError, GridView, TileMap};
pub use uncover::{trigger_event_handler, uncover_tiles, Cascade, RevealedTile, TIleTriggerEvent};
