//! A verified engine for a tile-laying race game.
//!
//! Players sit on the rim of a 6 x 6 board and alternately place path tiles;
//! every placement slides each still-active token along the connected paths
//! until it rests in front of an empty cell or falls off the board.  The
//! crate proves the port-rotation algebra, the movement resolution, and the
//! turn / elimination / draw-pile state machine against mathematical models
//! of the board and the game state.

pub mod agent;
pub mod board;
pub mod errors;
pub mod game;
pub mod lobby;
mod random;
pub mod tiles;
