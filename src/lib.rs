//! Turn resolution for a two-player tile-capture game on a rectangular grid.
pub mod tile;
pub mod pathfinder;
pub mod grid;
pub mod net;
pub mod laws;
pub mod text;

pub use tile::{TileOwner, Tile, MoveAction, SpawnAction, BuildAction, Action, TVec2};
pub use pathfinder::Pathfinder;
pub use grid::Grid;
pub use net::Padding;
