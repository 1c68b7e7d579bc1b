//! A tick-driven snake simulation whose body is a typed sequence of segments.

pub mod grid;
pub mod body;
pub mod placer;
pub mod simulation;
pub mod leaderboard;
pub mod game;
