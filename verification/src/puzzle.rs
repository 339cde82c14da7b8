//! Puzzles: a layout together with its solutions, drawn until one has any.

use crate::color::{rows_view, Color};
use crate::generator::{generate_color_grid, white_count, MIN_WHITE};
use crate::grid::Grid;
use crate::model::{
    anti_diagonal_complete, in_bounds, is_layout, is_solution, main_diagonal_complete, row_count,
    some_col_complete, some_row_complete, total_checked,
};
use crate::solver::Solver;
use vstd::prelude::*;

verus! {

/// A layout and all its solutions under a cap, of which there is at least one.
pub struct Puzzle {
    pub color_grid: Vec<Vec<Color>>,
    pub solutions: Vec<Grid>,
}

impl Puzzle {
    /// The colour layout of the puzzle.
    pub open spec fn layout(&self) -> Seq<Seq<Color>> {
        rows_view(self.color_grid@)
    }

    /// The puzzle holds a 5×5 layout and exactly its solutions under the cap
    /// `max_checked`, each once, and these are not none.
    pub open spec fn wf(&self, max_checked: usize) -> bool {
        &&& is_layout(self.layout())
        &&& self.solutions@.len() > 0
        &&& (Solver { color_grid: self.color_grid, max_checked }).is_solution_list(self.solutions@)
    }
}

/// The layout `l` has a solution under the cap `max_checked`.
pub open spec fn solvable(l: Seq<Seq<Color>>, max_checked: int) -> bool {
    exists|s: Seq<Seq<bool>>| #[trigger] is_solution(l, s, max_checked)
}

/// Solves the layout `color_grid` under the cap `max_checked`. Returns the
/// puzzle if the layout has a solution, and `None` if it has none.
pub fn try_layout(color_grid: Vec<Vec<Color>>, max_checked: usize) -> (puzzle: Option<Puzzle>)
    requires
        is_layout(rows_view(color_grid@)),
    ensures
        puzzle is Some <==> solvable(rows_view(color_grid@), max_checked as int),
        puzzle matches Some(p) ==> p.color_grid == color_grid && p.wf(max_checked),
{
    let solver = Solver::new(color_grid, max_checked);
    let solutions = solver.solve();
    let ghost l = solver.layout();
    if solutions.len() == 0 {
        proof {
            assert forall|s: Seq<Seq<bool>>| !#[trigger] is_solution(l, s, max_checked as int) by {
                if is_solution(l, s, max_checked as int) {
                    assert(crate::solver::listed(solutions@, 0, 0, s));
                }
            }
        }
        None
    } else {
        proof {
            assert(solver.solves(solutions@[0]));
            assert(is_solution(l, solutions@[0].checks(), max_checked as int));
        }
        Some(Puzzle { color_grid: solver.color_grid, solutions })
    }
}

/// A completed line takes five checks: no layout has a solution under a cap
/// below five.
pub proof fn lemma_solution_needs_five(l: Seq<Seq<Color>>, s: Seq<Seq<bool>>, max_checked: int)
    requires
        is_solution(l, s, max_checked),
    ensures
        max_checked >= 5,
{
    assert(in_bounds(0, 0) && in_bounds(1, 1) && in_bounds(2, 2) && in_bounds(3, 3) && in_bounds(
        4,
        4,
    ));
    assert(row_count(s, 0) >= 0 && row_count(s, 1) >= 0 && row_count(s, 2) >= 0 && row_count(s, 3)
        >= 0 && row_count(s, 4) >= 0);
    if some_row_complete(s) {
        assert(total_checked(s) >= 5);
    } else if some_col_complete(s) {
        assert(total_checked(s) >= 5);
    } else if main_diagonal_complete(s) {
        assert(total_checked(s) >= 5);
    } else {
        assert(anti_diagonal_complete(s));
        assert(total_checked(s) >= 5);
    }
}

/// Draws layouts until one has a solution under the cap `max_checked`, at most
/// `attempts` times. Returns the puzzle of the first layout that has one, or
/// `None` if none of the layouts drawn has one.
///
/// Which layouts are drawn is left to chance, and so is whether a puzzle comes
/// back. Without an attempt, or under a cap below the five checks of a line,
/// none does: `try_layout` tells for each layout whether it makes a puzzle.
pub fn generate_puzzle(max_checked: usize, attempts: usize) -> (puzzle: Option<Puzzle>)
    ensures
        attempts == 0 || max_checked < 5 ==> puzzle is None,
        puzzle matches Some(p) ==> {
            &&& p.wf(max_checked)
            &&& white_count(p.layout()) >= MIN_WHITE
            &&& solvable(p.layout(), max_checked as int)
        },
{
    let mut tried: usize = 0;
    while tried < attempts
        invariant
            tried <= attempts,
        decreases attempts - tried,
    {
        let color_grid = generate_color_grid();
        let ghost l = rows_view(color_grid@);
        let found = try_layout(color_grid, max_checked);
        if found.is_some() {
            proof {
                let s = choose|s: Seq<Seq<bool>>| #[trigger] is_solution(l, s, max_checked as int);
                lemma_solution_needs_five(l, s, max_checked as int);
            }
            return found;
        }
        tried += 1;
    }
    None
}

} // verus!
