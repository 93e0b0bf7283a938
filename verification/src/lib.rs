//! A two-player chess rule engine: board state, per-figure move legality,
//! check and checkmate detection, turn execution with capture and promotion
//! bookkeeping, and a capture/evade heuristic for computer players.

pub mod ai;
pub mod check;
pub mod game;
pub mod laws;
pub mod logic;
pub mod player;
pub mod system;
