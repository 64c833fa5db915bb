//! Rules and turn logic of a two-player tower-moving game on a row of nine
//! columns, with a line protocol for driving a bot and a random bot.
pub mod game;
pub mod text;
pub mod protocol;
pub mod render;
pub mod player;

pub use game::{Action, Game27, GameError, Piece, SIZE};
pub use player::{PlayError, RandomPlayer};
pub use protocol::{Input, ParseError};
