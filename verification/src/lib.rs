//! A mine-clearing puzzle engine: the board, its flood fill, and the state machine of a round.

pub mod clock;
pub mod count;
pub mod flood;
pub mod game;
pub mod grid;
pub mod layout;
mod random;
pub mod tile;
pub mod tiles;

pub use clock::Elapsed;
pub use game::{CursorDirection, Game, GameStatus};
pub use tile::{Feature, Tile, TileContent, TileMistake, TileMode};
pub use tiles::{Tiles, TilesOptions};
