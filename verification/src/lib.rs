//! Rules and game state of a two-player, single-screen Stratego table.
//!
//! `game` holds the board, the pieces, the movement/combat/setup rules and
//! the turn-and-handoff state machine; `cursor` computes where the pointer
//! lands when control passes to the other half of the screen; `commands`
//! holds the plain values that the front end sends in.

pub mod commands;
pub mod cursor;
pub mod game;
