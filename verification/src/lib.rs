pub mod entity;
pub mod error;
pub mod grid_room;
pub mod grid_store;
pub mod utils;
