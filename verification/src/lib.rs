//! A dice game for two: each team owns a grid of columns, rolls a die in
//! turn and puts it into one of its columns. A die bumps the dice of the same
//! face out of the rival's column of the same index, and dice of one face in
//! one column count more than their sum. The game is over when a grid is full.
//!
//! - `column`, `model`: what a column and a board are, as mathematical values.
//! - `board`: the stored board, with placing and scoring.
//! - `strategy`: how a team picks its column, at random or one move ahead.
//! - `game`: the turns of a game, one at a time or many.
//! - `render`: the board and the game as text.
//! - `tally`: wins and ties over many games.
//! - `laws`: what holds of every board and every game.

pub mod board;
pub mod column;
pub mod game;
pub mod laws;
pub mod model;
mod random;
pub mod render;
pub mod strategy;
pub mod tally;
