//! Core of a terminal dungeon crawler: procedurally generated rectangular
//! floors connected by ladders, a navigation state machine that moves the
//! player and lazily creates floors on first descent, and a coordinate
//! mapper that translates viewport cells to world cells with
//! centering/clamping/scrolling behaviour.

pub mod floor;
pub mod game;
pub mod grid;
pub mod rng;
pub mod tile;
pub mod view;

pub use floor::Floor;
pub use game::Game;
pub use rng::RandomSource;
pub use tile::{Position, Tile};
pub use view::{map_as_strings, to_world_coords};
