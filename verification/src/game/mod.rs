pub mod board;
pub mod count;
pub mod laws;
pub mod piece;
mod random;
pub mod rules;
pub mod state;

pub use piece::{Rank, Side};

pub use state::{BoardView, CombatResultDto, GameState, StatusDto};
