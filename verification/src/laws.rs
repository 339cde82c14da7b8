//! Laws of the rules and of the solver, stated over the model and proved.

use crate::grid::Grid;
use crate::model::{
    all_rules_hold, blacks_checked, blue_holds, checked, checks_more, col_count, cyan_holds,
    green_holds, has_completed_line, in_bounds, is_check_state, is_solution, neighbor_count,
    orange_holds, purple_holds, red_holds, row_count, tick, total_checked, transpose,
};
use crate::solver::{listed, Solver};
use vstd::prelude::*;

verus! {

/// At a cell that is not on the edge of the board, the Red rule holds if and
/// only if one of its eight neighbours is checked.
pub proof fn law_red_interior(s: Seq<Seq<bool>>, r: int, c: int)
    requires
        is_check_state(s),
        1 <= r <= 3,
        1 <= c <= 3,
    ensures
        red_holds(s, r, c) <==> (s[r - 1][c - 1] || s[r - 1][c] || s[r - 1][c + 1] || s[r][c - 1]
            || s[r][c + 1] || s[r + 1][c - 1] || s[r + 1][c] || s[r + 1][c + 1]),
{
}

/// At a corner of the board, the Red rule holds if and only if one of the three
/// neighbours of the corner is checked: the two next to it on the edges, that
/// is `(r, 1)` or `(r, 3)` and `(1, c)` or `(3, c)`, and the one diagonal to it.
pub proof fn law_red_corner(s: Seq<Seq<bool>>, r: int, c: int)
    requires
        is_check_state(s),
        r == 0 || r == 4,
        c == 0 || c == 4,
    ensures
        red_holds(s, r, c) <==> ({
            let inner_r = if r == 0 {
                1int
            } else {
                3int
            };
            let inner_c = if c == 0 {
                1int
            } else {
                3int
            };
            s[r][inner_c] || s[inner_r][c] || s[inner_r][inner_c]
        }),
{
}

/// The number of checked neighbours never falls when cells are added.
pub proof fn law_neighbor_count_monotone(s: Seq<Seq<bool>>, t: Seq<Seq<bool>>, r: int, c: int)
    requires
        checks_more(s, t),
    ensures
        neighbor_count(s, r, c) <= neighbor_count(t, r, c),
{
    assert forall|i: int, j: int| tick(s, i, j) <= tick(t, i, j) by {
        if checked(s, i, j) {
            assert(s[i][j]);
        }
    }
}

/// Adding checks can break the Blue rule and never mend it: if it holds in a
/// check state, it holds in every check state with fewer checks.
pub proof fn law_blue_antitone(s: Seq<Seq<bool>>, t: Seq<Seq<bool>>, r: int, c: int)
    requires
        checks_more(s, t),
        blue_holds(t, r, c),
    ensures
        blue_holds(s, r, c),
{
    law_neighbor_count_monotone(s, t, r, c);
}

/// At every position exactly one of the Purple rule and the Orange rule holds.
pub proof fn law_purple_orange_partition(s: Seq<Seq<bool>>, r: int, c: int)
    ensures
        purple_holds(s, r, c) <==> !orange_holds(s, r, c),
{
}

/// The Cyan rule holds at every unchecked cell.
pub proof fn law_cyan_unchecked(s: Seq<Seq<bool>>, r: int, c: int)
    requires
        !checked(s, r, c),
    ensures
        cyan_holds(s, r, c),
{
}

/// Mirroring the board at its main diagonal swaps the counts of rows and
/// columns.
pub proof fn law_transpose_counts(s: Seq<Seq<bool>>, k: int)
    requires
        0 <= k < 5,
    ensures
        is_check_state(transpose(s)),
        row_count(transpose(s), k) == col_count(s, k),
        col_count(transpose(s), k) == row_count(s, k),
{
    let t = transpose(s);
    assert forall|i: int, j: int| in_bounds(i, j) implies tick(t, i, j) == tick(s, j, i) by {}
    assert(in_bounds(k, 0) && in_bounds(k, 1) && in_bounds(k, 2) && in_bounds(k, 3) && in_bounds(
        k,
        4,
    ));
    assert(in_bounds(0, k) && in_bounds(1, k) && in_bounds(2, k) && in_bounds(3, k) && in_bounds(
        4,
        k,
    ));
}

/// The Green rule is symmetric in rows and columns: it holds at `(r, c)` if and
/// only if it holds at `(c, r)` of the board mirrored at its main diagonal.
pub proof fn law_green_symmetric(s: Seq<Seq<bool>>, r: int, c: int)
    requires
        in_bounds(r, c),
    ensures
        green_holds(s, r, c) <==> green_holds(transpose(s), c, r),
{
    law_transpose_counts(s, r);
    law_transpose_counts(s, c);
}

/// Every board that the solver returns is well formed and has the solver's
/// layout; in it every Black cell is checked, every cell's rule holds, one of
/// the twelve lines is fully checked, and no more cells are checked than the
/// cap allows.
pub proof fn law_returned_boards_are_valid(solver: Solver, boards: Seq<Grid>, k: int)
    requires
        solver.is_solution_list(boards),
        0 <= k < boards.len(),
    ensures
        boards[k].wf(),
        boards[k].colors() == solver.layout(),
        blacks_checked(solver.layout(), boards[k].checks()),
        all_rules_hold(boards[k].colors(), boards[k].checks()),
        has_completed_line(boards[k].checks()),
        total_checked(boards[k].checks()) <= solver.max_checked,
{
    assert(solver.solves(boards[k]));
}

/// No two boards that the solver returns have the same check state.
pub proof fn law_returned_boards_differ(solver: Solver, boards: Seq<Grid>, a: int, b: int)
    requires
        solver.is_solution_list(boards),
        0 <= a < boards.len(),
        0 <= b < boards.len(),
        a != b,
    ensures
        boards[a].checks() != boards[b].checks(),
{
    if a < b {
        assert(boards[a].checks() != boards[b].checks());
    } else {
        assert(boards[b].checks() != boards[a].checks());
    }
}

/// Copies of the boards that the solver returns, cell for cell, as a record
/// holds them, pass the global validator again.
pub proof fn law_copies_validate(solver: Solver, boards: Seq<Grid>, copies: Seq<Grid>, k: int)
    requires
        solver.is_solution_list(boards),
        copies.len() == boards.len(),
        0 <= k < boards.len(),
        copies[k].0@.len() == boards[k].0@.len(),
        forall|r: int| 0 <= r < boards[k].0@.len() ==> (#[trigger] copies[k].0@[r])@ == boards[k].0@[r]@,
    ensures
        copies[k].wf(),
        all_rules_hold(copies[k].colors(), copies[k].checks()),
        has_completed_line(copies[k].checks()),
{
    law_returned_boards_are_valid(solver, boards, k);
    let b = boards[k];
    let c = copies[k];
    assert forall|r: int, col: int| in_bounds(r, col) implies c.cell(r, col) == b.cell(r, col) by {
        assert(c.0@[r]@ == b.0@[r]@);
    }
    assert forall|r: int, col: int| in_bounds(r, col) implies #[trigger] c.placed(r, col) by {
        assert(b.placed(r, col));
    }
    assert(c.0@[0]@ == b.0@[0]@);
    assert(c.0@[1]@ == b.0@[1]@);
    assert(c.0@[2]@ == b.0@[2]@);
    assert(c.0@[3]@ == b.0@[3]@);
    assert(c.0@[4]@ == b.0@[4]@);
    assert(c.checks() =~~= b.checks());
    assert(c.colors() =~~= b.colors());
}

/// A board that the solver returns is a solution, and every solution is the
/// check state of a board that the solver returns.
pub proof fn law_returned_iff_solution(solver: Solver, boards: Seq<Grid>, s: Seq<Seq<bool>>)
    requires
        solver.is_solution_list(boards),
    ensures
        listed(boards, 0, boards.len() as int, s) <==> is_solution(
            solver.layout(),
            s,
            solver.max_checked as int,
        ),
{
    if listed(boards, 0, boards.len() as int, s) {
        let k = choose|k: int| 0 <= k < boards.len() && (#[trigger] boards[k]).checks() == s;
        assert(solver.solves(boards[k]));
    }
}

/// The solver is deterministic as a set: two lists that it may return for one
/// layout and one cap hold the same check states.
pub proof fn law_solver_deterministic(
    solver: Solver,
    first: Seq<Grid>,
    second: Seq<Grid>,
    s: Seq<Seq<bool>>,
)
    requires
        solver.is_solution_list(first),
        solver.is_solution_list(second),
    ensures
        listed(first, 0, first.len() as int, s) <==> listed(second, 0, second.len() as int, s),
{
    law_returned_iff_solution(solver, first, s);
    law_returned_iff_solution(solver, second, s);
}

} // verus!
