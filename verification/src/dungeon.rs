//! A dungeon: named rooms, linked to one another in the four directions.
pub mod rooms;
pub mod reader;
pub mod search;
pub mod path;

pub use rooms::{match_prefix, Direction, Dungeon, Errors, ErrorsView, Room, RoomView};
