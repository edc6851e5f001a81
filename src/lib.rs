//! A two-player game on a three-by-three grid: the board with its win and
//! fullness rules, the parser for directional coordinates such as
//! `"top-left"`, the player bindings, and a turn engine that advances one
//! bounded step at a time.

pub mod board;
pub mod direction;
pub mod player;
pub mod game;
