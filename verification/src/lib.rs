//! A solver for a coloured 5×5 bingo puzzle.
//!
//! Each cell of the board carries one of nine colours, and each colour imposes a
//! rule on which cells around it are checked. A solution is a set of checked
//! cells that satisfies every cell's rule, checks every Black cell, completes a
//! row, a column or a main diagonal, and stays within a cap on the number of
//! checked cells. [`solver::Solver::solve`] enumerates all of them.
//!
//! - [`model`] states the puzzle over mathematical check states and layouts.
//! - [`cells`] describes neighbourhoods and diagonals as lists of positions.
//! - [`grid`] is the executable board with the rule of each colour.
//! - [`solver`] is the search, [`laws`] what is proved of rules and search.
//! - [`generator`] draws random layouts, [`puzzle`] draws until one is solvable.
//! - [`text`], [`export`], [`render`] and [`archive`] prepare what is logged,
//!   written and drawn.

pub mod archive;
pub mod cells;
pub mod color;
pub mod export;
pub mod generator;
pub mod grid;
pub mod laws;
pub mod model;
pub mod puzzle;
pub mod render;
pub mod solver;
pub mod text;
