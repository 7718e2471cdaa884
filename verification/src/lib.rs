//! A small engine for Minishogi, the 5x5 variant of shogi.
//!
//! `game` holds the position model (sides, pieces, moves, the board and its
//! notation); `logic` holds the move tables, the move generator, the static
//! evaluation, the one-ply mate detector, the move ordering and the search;
//! `cui` reads a move as a player types it.
//!
//! A search needs the move tables and the move-ordering statistics.  Both are
//! plain values that the caller builds once and hands to every call:
//! `MoveTable::new()` and `MoveOrderTable::new()`.

pub mod cui;
pub mod game;
pub mod logic;
