//! Scorekeeping for the dice game Yacht.
//!
//! `players` holds the scoreboards, the rule that derives bonus and total
//! from the scored categories, and the registry of players. `playboard`
//! holds the board as a terminal shows it: where its table stands, how wide
//! each player's column is, and what the keys and the typed scores mean.

pub mod playboard;
pub mod players;
