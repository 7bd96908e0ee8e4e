//! Rules engine of a turn-based territorial-conquest game on a diamond grid.
//!
//! Players own tiles on a diamond-shaped board, station unit stacks on them,
//! erect buildings, and fight over adjacent territory. The library enforces
//! attack resolution, resource accounting, turn progression and elimination;
//! every operation either fully validates and fully applies, or rejects the
//! request leaving the state unchanged.

pub mod errors;
pub mod states;
pub mod combat;
pub mod unit;
pub mod recruit;
pub mod build_construction;
pub mod create_game;
pub mod ai;
pub mod end_turn;
