//! The solver: a depth-first search over the 25 cells in row-major order that
//! returns every solution of a colour layout exactly once.

use crate::color::{rows_view, Color};
use crate::grid::{Cell, Grid};
use crate::model::{
    black_forced, blacks_checked, checks_more, in_bounds, is_check_state, is_layout, is_solution,
    row_count, tick, total_checked,
};
use vstd::prelude::*;

verus! {

/// `(i, j)` comes strictly before `(x, y)` in row-major order.
pub open spec fn before(i: int, j: int, x: int, y: int) -> bool {
    i < x || (i == x && j < y)
}

/// `(x, y)` is a position of the search: a cell of the board, or `(5, 0)`, the
/// position after the last cell.
pub open spec fn is_cursor(x: int, y: int) -> bool {
    in_bounds(x, y) || (x == 5 && y == 0)
}

/// The position after `(x, y)` in row-major order.
pub open spec fn successor(x: int, y: int) -> (int, int) {
    if y == 4 {
        (x + 1, 0)
    } else {
        (x, y + 1)
    }
}

/// The check states `a` and `b` agree at `(i, j)`.
pub open spec fn same_at(a: Seq<Seq<bool>>, b: Seq<Seq<bool>>, i: int, j: int) -> bool {
    a[i][j] == b[i][j]
}

/// The check states `a` and `b` agree at every cell before `(x, y)`.
pub open spec fn agree_before(a: Seq<Seq<bool>>, b: Seq<Seq<bool>>, x: int, y: int) -> bool {
    forall|i: int, j: int| in_bounds(i, j) && before(i, j, x, y) ==> #[trigger] same_at(a, b, i, j)
}

/// The cell `(i, j)` is as the search finds it: checked if and only if Black.
pub open spec fn at_rest(l: Seq<Seq<Color>>, s: Seq<Seq<bool>>, i: int, j: int) -> bool {
    s[i][j] == (l[i][j] == Color::Black)
}

/// Every cell from `(x, y)` on is checked if and only if it is Black.
pub open spec fn at_rest_from(l: Seq<Seq<Color>>, s: Seq<Seq<bool>>, x: int, y: int) -> bool {
    forall|i: int, j: int| in_bounds(i, j) && !before(i, j, x, y) ==> #[trigger] at_rest(l, s, i, j)
}

/// `longer` starts with the entries of `shorter`.
pub open spec fn extends(shorter: Seq<Grid>, longer: Seq<Grid>) -> bool {
    &&& shorter.len() <= longer.len()
    &&& forall|k: int| 0 <= k < shorter.len() ==> #[trigger] longer[k] == shorter[k]
}

/// No board of `prior` has the check state `s`.
pub open spec fn fresh(prior: Seq<Grid>, s: Seq<Seq<bool>>) -> bool {
    forall|m: int| 0 <= m < prior.len() ==> (#[trigger] prior[m]).checks() != s
}

/// One of the boards `boards[lo..hi]` has the check state `s`.
pub open spec fn listed(boards: Seq<Grid>, lo: int, hi: int, s: Seq<Seq<bool>>) -> bool {
    exists|k: int| lo <= k < hi && (#[trigger] boards[k]).checks() == s
}

/// The boards `boards[lo..hi]` have pairwise different check states.
pub open spec fn distinct(boards: Seq<Grid>, lo: int, hi: int) -> bool {
    forall|a: int, b: int|
        lo <= a < b < hi ==> (#[trigger] boards[a]).checks() != (#[trigger] boards[b]).checks()
}

/// A check state that checks more cells has at least as many checked cells.
pub proof fn lemma_total_monotone(s: Seq<Seq<bool>>, t: Seq<Seq<bool>>)
    requires
        checks_more(s, t),
    ensures
        total_checked(s) <= total_checked(t),
{
    assert forall|r: int, c: int| in_bounds(r, c) implies tick(s, r, c) <= tick(t, r, c) by {
        if s[r][c] {
            assert(t[r][c]);
        }
    }
    assert(row_count(s, 0) <= row_count(t, 0));
    assert(row_count(s, 1) <= row_count(t, 1));
    assert(row_count(s, 2) <= row_count(t, 2));
    assert(row_count(s, 3) <= row_count(t, 3));
    assert(row_count(s, 4) <= row_count(t, 4));
}

/// Setting one cell changes the number of checked cells by that cell alone.
pub proof fn lemma_total_after_set(s: Seq<Seq<bool>>, x: int, y: int, v: bool)
    requires
        is_check_state(s),
        in_bounds(x, y),
    ensures
        is_check_state(s.update(x, s[x].update(y, v))),
        total_checked(s.update(x, s[x].update(y, v))) == total_checked(s) - tick(s, x, y) + (if v {
            1int
        } else {
            0int
        }),
{
    let t = s.update(x, s[x].update(y, v));
    assert forall|r: int, c: int| in_bounds(r, c) implies tick(t, r, c) == (if r == x && c == y {
        if v {
            1int
        } else {
            0int
        }
    } else {
        tick(s, r, c)
    }) by {}
    assert forall|r: int| 0 <= r < 5 implies row_count(t, r) == row_count(s, r) + (if r == x {
        (if v {
            1int
        } else {
            0int
        }) - tick(s, x, y)
    } else {
        0int
    }) by {
        assert(in_bounds(r, 0) && in_bounds(r, 1) && in_bounds(r, 2) && in_bounds(r, 3)
            && in_bounds(r, 4));
    }
}

/// Check states that agree at every cell are equal.
pub proof fn lemma_agree_everywhere(s: Seq<Seq<bool>>, t: Seq<Seq<bool>>)
    requires
        is_check_state(s),
        is_check_state(t),
        agree_before(s, t, 5, 0),
    ensures
        s == t,
{
    assert forall|i: int, j: int| in_bounds(i, j) implies s[i][j] == t[i][j] by {
        assert(same_at(s, t, i, j));
    }
    assert forall|i: int| 0 <= i < 5 implies s[i] == t[i] by {
        assert forall|j: int| 0 <= j < 5 implies s[i][j] == t[i][j] by {
            assert(in_bounds(i, j));
        }
        assert(s[i] =~= t[i]);
    }
    assert(s =~= t);
}

/// Agreement before the successor of `(x, y)` gives agreement before `(x, y)`.
pub proof fn lemma_agree_shorter(s: Seq<Seq<bool>>, t: Seq<Seq<bool>>, x: int, y: int)
    requires
        in_bounds(x, y),
        agree_before(s, t, successor(x, y).0, successor(x, y).1),
    ensures
        agree_before(s, t, x, y),
        same_at(s, t, x, y),
{
    assert forall|i: int, j: int| in_bounds(i, j) && before(i, j, x, y) implies #[trigger] same_at(
        s,
        t,
        i,
        j,
    ) by {
        assert(before(i, j, successor(x, y).0, successor(x, y).1));
    }
    assert(before(x, y, successor(x, y).0, successor(x, y).1));
}

/// Agreement before `(x, y)` and at `(x, y)` gives agreement before its
/// successor.
pub proof fn lemma_agree_longer(s: Seq<Seq<bool>>, t: Seq<Seq<bool>>, x: int, y: int)
    requires
        in_bounds(x, y),
        agree_before(s, t, x, y),
        s[x][y] == t[x][y],
    ensures
        agree_before(s, t, successor(x, y).0, successor(x, y).1),
{
    assert forall|i: int, j: int|
        in_bounds(i, j) && before(i, j, successor(x, y).0, successor(x, y).1) implies #[trigger] same_at(
        s,
        t,
        i,
        j,
    ) by {
        if before(i, j, x, y) {
            assert(same_at(s, t, i, j));
        }
    }
}

/// Agreement before `(x, y)` does not depend on the cells from `(x, y)` on.
pub proof fn lemma_agree_change(
    s: Seq<Seq<bool>>,
    t: Seq<Seq<bool>>,
    u: Seq<Seq<bool>>,
    x: int,
    y: int,
)
    requires
        agree_before(s, t, x, y),
        agree_before(t, u, x, y),
    ensures
        agree_before(s, u, x, y),
{
    assert forall|i: int, j: int| in_bounds(i, j) && before(i, j, x, y) implies #[trigger] same_at(
        s,
        u,
        i,
        j,
    ) by {
        assert(same_at(s, t, i, j));
        assert(same_at(t, u, i, j));
    }
}

/// Cells at rest from `(x, y)` on are at rest from its successor on.
pub proof fn lemma_rest_after(l: Seq<Seq<Color>>, s: Seq<Seq<bool>>, x: int, y: int)
    requires
        in_bounds(x, y),
        at_rest_from(l, s, x, y),
    ensures
        at_rest_from(l, s, successor(x, y).0, successor(x, y).1),
{
    assert forall|i: int, j: int|
        in_bounds(i, j) && !before(i, j, successor(x, y).0, successor(x, y).1) implies #[trigger] at_rest(
        l,
        s,
        i,
        j,
    ) by {
        assert(!before(i, j, x, y));
    }
}

/// Setting the cell `(x, y)` keeps the cells before it, and keeps those after it
/// at rest.
pub proof fn lemma_set_keeps_rest(
    l: Seq<Seq<Color>>,
    s: Seq<Seq<bool>>,
    t: Seq<Seq<bool>>,
    x: int,
    y: int,
    v: bool,
)
    requires
        is_check_state(s),
        in_bounds(x, y),
        at_rest_from(l, s, x, y),
        t == s.update(x, s[x].update(y, v)),
    ensures
        at_rest_from(l, t, successor(x, y).0, successor(x, y).1),
        agree_before(s, t, x, y),
        agree_before(t, s, x, y),
        t[x][y] == v,
        v ==> checks_more(s, t),
{
    assert forall|i: int, j: int|
        in_bounds(i, j) && !before(i, j, successor(x, y).0, successor(x, y).1) implies #[trigger] at_rest(
        l,
        t,
        i,
        j,
    ) by {
        assert(!before(i, j, x, y));
        assert(at_rest(l, s, i, j));
    }
    assert forall|i: int, j: int| in_bounds(i, j) && before(i, j, x, y) implies #[trigger] same_at(
        s,
        t,
        i,
        j,
    ) by {}
    assert forall|i: int, j: int| in_bounds(i, j) && before(i, j, x, y) implies #[trigger] same_at(
        t,
        s,
        i,
        j,
    ) by {}
}

/// A solution that agrees with `g` before `(x, y)` checks every cell that `g`
/// checks, if `g` is at rest from `(x, y)` on.
pub proof fn lemma_dominates(
    l: Seq<Seq<Color>>,
    s: Seq<Seq<bool>>,
    g: Seq<Seq<bool>>,
    x: int,
    y: int,
)
    requires
        blacks_checked(l, s),
        agree_before(s, g, x, y),
        at_rest_from(l, g, x, y),
    ensures
        checks_more(g, s),
{
    assert forall|r: int, c: int| in_bounds(r, c) && #[trigger] g[r][c] implies s[r][c] by {
        if before(r, c, x, y) {
            assert(same_at(s, g, r, c));
        } else {
            assert(at_rest(l, g, r, c));
            assert(black_forced(l, s, r, c));
        }
    }
}

/// Checking more cells keeps every Black cell checked.
pub proof fn lemma_blacks_stay(l: Seq<Seq<Color>>, s: Seq<Seq<bool>>, t: Seq<Seq<bool>>)
    requires
        blacks_checked(l, s),
        checks_more(s, t),
    ensures
        blacks_checked(l, t),
{
    assert forall|r: int, c: int| in_bounds(r, c) implies #[trigger] black_forced(l, t, r, c) by {
        assert(black_forced(l, s, r, c));
    }
}

/// Checking a cell and unchecking it again restores a check state in which it
/// was unchecked.
pub proof fn lemma_set_back(s: Seq<Seq<bool>>, x: int, y: int)
    requires
        is_check_state(s),
        in_bounds(x, y),
        !s[x][y],
    ensures
        ({
            let t = s.update(x, s[x].update(y, true));
            t.update(x, t[x].update(y, false)) == s
        }),
{
    let t = s.update(x, s[x].update(y, true));
    let u = t.update(x, t[x].update(y, false));
    assert(u[x] =~= s[x]);
    assert(u =~= s);
}

/// A solver for one colour layout under one cap on the number of checked cells.
pub struct Solver {
    pub color_grid: Vec<Vec<Color>>,
    pub max_checked: usize,
}

impl Solver {
    /// The colour layout that the solver works on.
    pub open spec fn layout(&self) -> Seq<Seq<Color>> {
        rows_view(self.color_grid@)
    }

    /// The solver is well formed: its layout is 5×5.
    pub open spec fn wf(&self) -> bool {
        is_layout(self.layout())
    }

    /// `g` is a well-formed board of the solver's layout whose check state is a
    /// solution.
    pub open spec fn solves(&self, g: Grid) -> bool {
        &&& g.wf()
        &&& g.colors() == self.layout()
        &&& is_solution(self.layout(), g.checks(), self.max_checked as int)
    }

    /// `s` is a solution that agrees with `g` before `(x, y)` and that no board
    /// of `prior` holds.
    pub open spec fn wanted(
        &self,
        s: Seq<Seq<bool>>,
        prior: Seq<Grid>,
        g: Seq<Seq<bool>>,
        x: int,
        y: int,
    ) -> bool {
        &&& is_solution(self.layout(), s, self.max_checked as int)
        &&& agree_before(s, g, x, y)
        &&& fresh(prior, s)
    }

    /// The board `b` is a solution that agrees with `g` before `(x, y)` and that
    /// no board of `prior` holds.
    pub open spec fn found(&self, b: Grid, prior: Seq<Grid>, g: Seq<Seq<bool>>, x: int, y: int) -> bool {
        &&& self.solves(b)
        &&& self.wanted(b.checks(), prior, g, x, y)
    }

    /// `after` holds, behind the boards of `start`, exactly the solutions that
    /// agree with `g` before `(x, y)` and that no board of `prior` holds, each
    /// once.
    #[verifier::opaque]
    spec fn searched(
        &self,
        start: Seq<Grid>,
        after: Seq<Grid>,
        prior: Seq<Grid>,
        g: Seq<Seq<bool>>,
        x: int,
        y: int,
    ) -> bool {
        &&& forall|k: int|
            start.len() <= k < after.len() ==> self.found(#[trigger] after[k], prior, g, x, y)
        &&& distinct(after, start.len() as int, after.len() as int)
        &&& forall|s: Seq<Seq<bool>>| #[trigger]
            self.wanted(s, prior, g, x, y) ==> listed(
                after,
                start.len() as int,
                after.len() as int,
                s,
            )
    }

    /// What `solve` returns: solutions only, each once, and all of them.
    pub open spec fn is_solution_list(&self, boards: Seq<Grid>) -> bool {
        &&& forall|k: int| 0 <= k < boards.len() ==> self.solves(#[trigger] boards[k])
        &&& distinct(boards, 0, boards.len() as int)
        &&& forall|s: Seq<Seq<bool>>| #[trigger]
            is_solution(self.layout(), s, self.max_checked as int) ==> listed(
                boards,
                0,
                boards.len() as int,
                s,
            )
    }

    /// A solver for the layout `color_grid` under the cap `max_checked`.
    pub fn new(color_grid: Vec<Vec<Color>>, max_checked: usize) -> (solver: Self)
        ensures
            solver.color_grid == color_grid,
            solver.max_checked == max_checked,
    {
        Self { color_grid, max_checked }
    }

    /// The board on which the search starts: the solver's layout, with exactly
    /// the Black cells checked.
    pub fn initialize_grid(&self) -> (grid: Grid)
        requires
            self.wf(),
        ensures
            grid.wf(),
            grid.colors() == self.layout(),
            blacks_checked(self.layout(), grid.checks()),
            at_rest_from(self.layout(), grid.checks(), 0, 0),
    {
        let mut rows: Vec<Vec<Cell>> = Vec::new();
        let mut i: usize = 0;
        while i < 5
            invariant
                self.wf(),
                i <= 5,
                rows@.len() == i,
                forall|r: int| 0 <= r < i ==> (#[trigger] rows@[r])@.len() == 5,
                forall|r: int, c: int|
                    0 <= r < i && 0 <= c < 5 ==> (#[trigger] rows@[r]@[c]) == (Cell {
                        x: r as usize,
                        y: c as usize,
                        color: self.color_grid@[r]@[c],
                        checked: self.color_grid@[r]@[c] == Color::Black,
                    }),
            decreases 5 - i,
        {
            let mut row: Vec<Cell> = Vec::new();
            let mut j: usize = 0;
            while j < 5
                invariant
                    self.wf(),
                    i < 5,
                    j <= 5,
                    row@.len() == j,
                    forall|c: int|
                        0 <= c < j ==> (#[trigger] row@[c]) == (Cell {
                            x: i,
                            y: c as usize,
                            color: self.color_grid@[i as int]@[c],
                            checked: self.color_grid@[i as int]@[c] == Color::Black,
                        }),
                decreases 5 - j,
            {
                assert(self.layout()[i as int].len() == 5);
                let color = self.color_grid[i][j];
                row.push(Cell { x: i, y: j, color, checked: color == Color::Black });
                j += 1;
            }
            rows.push(row);
            i += 1;
        }
        let grid = Grid(rows);
        proof {
            assert forall|r: int, c: int| in_bounds(r, c) implies #[trigger] grid.placed(r, c) by {
                assert(grid.0@[r]@[c].x == r);
            }
            assert(grid.colors() =~~= self.layout());
            assert forall|r: int, c: int| in_bounds(r, c) implies #[trigger] black_forced(
                self.layout(),
                grid.checks(),
                r,
                c,
            ) by {
                assert(grid.0@[r]@[c].checked == (self.color_grid@[r]@[c] == Color::Black));
            }
            assert forall|r: int, c: int| in_bounds(r, c) implies #[trigger] at_rest(
                self.layout(),
                grid.checks(),
                r,
                c,
            ) by {
                assert(grid.0@[r]@[c].checked == (self.color_grid@[r]@[c] == Color::Black));
            }
        }
        grid
    }

    /// The position after `(x, y)` in row-major order; after `(4, 4)` comes
    /// `(5, 0)`.
    pub fn next_position(&self, x: usize, y: usize) -> (next: (usize, usize))
        requires
            x < 5,
            y < 5,
        ensures
            (next.0 as int, next.1 as int) == successor(x as int, y as int),
            is_cursor(next.0 as int, next.1 as int),
    {
        if y == 4 {
            (x + 1, 0)
        } else {
            (x, y + 1)
        }
    }
    /// Every solution of the solver's layout, each exactly once, in no
    /// particular order.
    pub fn solve(&self) -> (solutions: Vec<Grid>)
        requires
            self.wf(),
        ensures
            self.is_solution_list(solutions@),
    {
        let mut solutions: Vec<Grid> = Vec::new();
        let mut current_grid = self.initialize_grid();
        let initial_checked = current_grid.count_total_checked();
        let ghost start = current_grid.checks();
        self.backtrack(0, 0, &mut current_grid, &mut solutions, initial_checked);
        proof {
            assert forall|k: int| 0 <= k < solutions@.len() implies self.solves(
                #[trigger] solutions@[k],
            ) by {
                assert(self.found(solutions@[k], Seq::empty(), start, 0, 0));
            }
            assert forall|s: Seq<Seq<bool>>| #[trigger]
                is_solution(self.layout(), s, self.max_checked as int) implies listed(
                solutions@,
                0,
                solutions@.len() as int,
                s,
            ) by {
                assert(self.wanted(s, Seq::empty(), start, 0, 0));
            }
        }
        solutions
    }

    /// One step of the search, at the cell `(x, y)` or, with `(5, 0)`, after the
    /// last cell. `grid` holds the choices made for the cells before `(x, y)`;
    /// `current_checked` is the number of its checked cells.
    ///
    /// Appends to `solutions` every solution that agrees with `grid` before
    /// `(x, y)` and that `solutions` did not hold, each once. `grid` is left as
    /// it was found.
    pub fn backtrack(
        &self,
        x: usize,
        y: usize,
        grid: &mut Grid,
        solutions: &mut Vec<Grid>,
        current_checked: usize,
    )
        requires
            self.wf(),
            is_cursor(x as int, y as int),
            old(grid).wf(),
            old(grid).colors() == self.layout(),
            blacks_checked(self.layout(), old(grid).checks()),
            at_rest_from(self.layout(), old(grid).checks(), x as int, y as int),
            current_checked == total_checked(old(grid).checks()),
            forall|m: int| 0 <= m < old(solutions)@.len() ==> (#[trigger] old(solutions)@[m]).wf(),
        ensures
            final(grid).wf(),
            final(grid).colors() == old(grid).colors(),
            final(grid).checks() == old(grid).checks(),
            extends(old(solutions)@, final(solutions)@),
            forall|k: int|
                old(solutions)@.len() <= k < final(solutions)@.len() ==> self.found(
                    #[trigger] final(solutions)@[k],
                    old(solutions)@,
                    old(grid).checks(),
                    x as int,
                    y as int,
                ),
            distinct(
                final(solutions)@,
                old(solutions)@.len() as int,
                final(solutions)@.len() as int,
            ),
            forall|s: Seq<Seq<bool>>| #[trigger]
                self.wanted(s, old(solutions)@, old(grid).checks(), x as int, y as int) ==> listed(
                    final(solutions)@,
                    old(solutions)@.len() as int,
                    final(solutions)@.len() as int,
                    s,
                ),
    {
        let base = solutions.len();
        proof {
            reveal(Solver::searched);
        }
        self.descend(x, y, grid, solutions, current_checked, base, Ghost(solutions@));
    }

    /// The search below `(x, y)`. The first `base` boards of `solutions` are
    /// `prior`, the boards that the caller of `backtrack` handed in: a board
    /// that is found is compared with those alone, since the search meets no
    /// check state twice.
    fn descend(
        &self,
        x: usize,
        y: usize,
        grid: &mut Grid,
        solutions: &mut Vec<Grid>,
        current_checked: usize,
        base: usize,
        Ghost(prior): Ghost<Seq<Grid>>,
    )
        requires
            self.wf(),
            is_cursor(x as int, y as int),
            old(grid).wf(),
            old(grid).colors() == self.layout(),
            blacks_checked(self.layout(), old(grid).checks()),
            at_rest_from(self.layout(), old(grid).checks(), x as int, y as int),
            current_checked == total_checked(old(grid).checks()),
            prior.len() == base,
            extends(prior, old(solutions)@),
            forall|m: int| 0 <= m < prior.len() ==> (#[trigger] prior[m]).wf(),
        ensures
            final(grid).wf(),
            final(grid).colors() == old(grid).colors(),
            final(grid).checks() == old(grid).checks(),
            extends(old(solutions)@, final(solutions)@),
            self.searched(
                old(solutions)@,
                final(solutions)@,
                prior,
                old(grid).checks(),
                x as int,
                y as int,
            ),
        decreases 25 - (5 * x + y),
    {
        let ghost l = self.layout();
        let ghost g0 = grid.checks();
        let ghost s0 = solutions@;
        if x == 5 {
            self.accept(grid, solutions, current_checked, base, Ghost(prior));
            return ;
        }
        let (next_x, next_y) = self.next_position(x, y);
        let ghost xi = x as int;
        let ghost yi = y as int;
        assert(l[xi].len() == 5);
        assert(is_check_state(g0));
        assert(at_rest(l, g0, xi, yi));
        if self.color_grid[x][y] == Color::Black {
            proof {
                assert(l[xi][yi] == Color::Black);
                lemma_rest_after(l, g0, xi, yi);
            }
            self.descend(next_x, next_y, grid, solutions, current_checked, base, Ghost(prior));
            proof {
                self.lemma_forced(s0, solutions@, prior, g0, xi, yi);
            }
        } else {
            grid.set_checked(x, y, true);
            let ghost g1 = grid.checks();
            let new_checked = current_checked + 1;
            proof {
                assert(l[xi][yi] != Color::Black);
                lemma_total_after_set(g0, xi, yi, true);
                lemma_set_keeps_rest(l, g0, g1, xi, yi, true);
                lemma_blacks_stay(l, g0, g1);
            }
            if new_checked <= self.max_checked {
                self.descend(next_x, next_y, grid, solutions, new_checked, base, Ghost(prior));
            } else {
                proof {
                    self.lemma_pruned(s0, prior, g1, successor(xi, yi).0, successor(xi, yi).1);
                }
            }
            let ghost s1 = solutions@;
            grid.set_checked(x, y, false);
            proof {
                lemma_set_back(g0, xi, yi);
                lemma_rest_after(l, g0, xi, yi);
            }
            self.descend(next_x, next_y, grid, solutions, current_checked, base, Ghost(prior));
            proof {
                self.lemma_joined(s0, s1, solutions@, prior, g0, g1, xi, yi);
            }
        }
    }

    /// The end of the search, after the last cell: `grid` is appended to
    /// `solutions` if it is a solution that `prior` does not hold.
    fn accept(
        &self,
        grid: &Grid,
        solutions: &mut Vec<Grid>,
        current_checked: usize,
        base: usize,
        Ghost(prior): Ghost<Seq<Grid>>,
    )
        requires
            self.wf(),
            grid.wf(),
            grid.colors() == self.layout(),
            blacks_checked(self.layout(), grid.checks()),
            current_checked == total_checked(grid.checks()),
            prior.len() == base,
            extends(prior, old(solutions)@),
            forall|m: int| 0 <= m < prior.len() ==> (#[trigger] prior[m]).wf(),
        ensures
            extends(old(solutions)@, final(solutions)@),
            self.searched(old(solutions)@, final(solutions)@, prior, grid.checks(), 5, 0),
    {
        let ghost g0 = grid.checks();
        let ghost s0 = solutions@;
        assert(is_check_state(g0));
        proof {
            reveal(Solver::searched);
        }
        let mut present = false;
        if grid.check_all_rules() && grid.has_five_in_a_row() && current_checked
            <= self.max_checked {
            let mut m: usize = 0;
            while m < base
                invariant
                    m <= base,
                    prior.len() == base,
                    extends(prior, solutions@),
                    grid.wf(),
                    forall|m: int| 0 <= m < prior.len() ==> (#[trigger] prior[m]).wf(),
                    present == exists|k: int|
                        0 <= k < m && (#[trigger] prior[k]).checks() == grid.checks(),
                decreases base - m,
            {
                assert(solutions@[m as int] == prior[m as int]);
                if solutions[m].has_same_checks(grid) {
                    present = true;
                }
                m += 1;
            }
            if !present {
                let copy = grid.clone();
                solutions.push(copy);
                proof {
                    assert(fresh(prior, g0));
                    assert(agree_before(g0, g0, 5, 0)) by {
                        assert forall|i: int, j: int|
                            in_bounds(i, j) && before(i, j, 5, 0) implies #[trigger] same_at(
                            g0,
                            g0,
                            i,
                            j,
                        ) by {}
                    }
                    assert(self.found(copy, prior, g0, 5, 0));
                    assert forall|s: Seq<Seq<bool>>| #[trigger]
                        self.wanted(s, prior, g0, 5, 0) implies listed(
                        solutions@,
                        s0.len() as int,
                        solutions@.len() as int,
                        s,
                    ) by {
                        lemma_agree_everywhere(s, g0);
                        assert(solutions@[s0.len() as int].checks() == s);
                    }
                }
                return ;
            }
        }
        proof {
            assert forall|s: Seq<Seq<bool>>| #[trigger]
                self.wanted(s, prior, g0, 5, 0) implies false by {
                lemma_agree_everywhere(s, g0);
                if present {
                    let k = choose|k: int|
                        0 <= k < base && (#[trigger] prior[k]).checks() == grid.checks();
                    assert(prior[k].checks() == s);
                }
            }
        }
    }

    /// Where the cap is already exceeded, nothing is wanted.
    proof fn lemma_pruned(&self, s0: Seq<Grid>, prior: Seq<Grid>, g: Seq<Seq<bool>>, x: int, y: int)
        requires
            at_rest_from(self.layout(), g, x, y),
            total_checked(g) > self.max_checked,
        ensures
            self.searched(s0, s0, prior, g, x, y),
    {
        reveal(Solver::searched);
        assert forall|s: Seq<Seq<bool>>| #[trigger] self.wanted(s, prior, g, x, y) implies false by {
            lemma_dominates(self.layout(), s, g, x, y);
            lemma_total_monotone(g, s);
        }
    }

    /// At a Black cell the search below the next cell is the search below this
    /// one.
    proof fn lemma_forced(
        &self,
        s0: Seq<Grid>,
        s1: Seq<Grid>,
        prior: Seq<Grid>,
        g: Seq<Seq<bool>>,
        x: int,
        y: int,
    )
        requires
            in_bounds(x, y),
            self.layout()[x][y] == Color::Black,
            g[x][y],
            self.searched(s0, s1, prior, g, successor(x, y).0, successor(x, y).1),
        ensures
            self.searched(s0, s1, prior, g, x, y),
    {
        reveal(Solver::searched);
        let nx = successor(x, y).0;
        let ny = successor(x, y).1;
        assert forall|k: int| s0.len() <= k < s1.len() implies self.found(
            #[trigger] s1[k],
            prior,
            g,
            x,
            y,
        ) by {
            assert(self.found(s1[k], prior, g, nx, ny));
            lemma_agree_shorter(s1[k].checks(), g, x, y);
        }
        assert forall|s: Seq<Seq<bool>>| #[trigger] self.wanted(s, prior, g, x, y) implies listed(
            s1,
            s0.len() as int,
            s1.len() as int,
            s,
        ) by {
            assert(black_forced(self.layout(), s, x, y));
            lemma_agree_longer(s, g, x, y);
            assert(self.wanted(s, prior, g, nx, ny));
        }
    }

    /// The search with `(x, y)` checked followed by the search with `(x, y)`
    /// unchecked is the search below `(x, y)`.
    proof fn lemma_joined(
        &self,
        s0: Seq<Grid>,
        s1: Seq<Grid>,
        s2: Seq<Grid>,
        prior: Seq<Grid>,
        g0: Seq<Seq<bool>>,
        g1: Seq<Seq<bool>>,
        x: int,
        y: int,
    )
        requires
            in_bounds(x, y),
            !g0[x][y],
            g1[x][y],
            agree_before(g0, g1, x, y),
            agree_before(g1, g0, x, y),
            extends(s0, s1),
            extends(s1, s2),
            self.searched(s0, s1, prior, g1, successor(x, y).0, successor(x, y).1),
            self.searched(s1, s2, prior, g0, successor(x, y).0, successor(x, y).1),
        ensures
            self.searched(s0, s2, prior, g0, x, y),
    {
        reveal(Solver::searched);
        let nx = successor(x, y).0;
        let ny = successor(x, y).1;
        assert forall|k: int| s0.len() <= k < s2.len() implies self.found(
            #[trigger] s2[k],
            prior,
            g0,
            x,
            y,
        ) by {
            if k < s1.len() {
                assert(s2[k] == s1[k]);
                assert(self.found(s1[k], prior, g1, nx, ny));
                lemma_agree_shorter(s2[k].checks(), g1, x, y);
                lemma_agree_change(s2[k].checks(), g1, g0, x, y);
            } else {
                assert(self.found(s2[k], prior, g0, nx, ny));
                lemma_agree_shorter(s2[k].checks(), g0, x, y);
            }
        }
        assert forall|a: int, b: int| s0.len() <= a < b < s2.len() implies (#[trigger] s2[a]).checks()
            != (#[trigger] s2[b]).checks() by {
            if b < s1.len() {
                assert(s2[a] == s1[a]);
                assert(s2[b] == s1[b]);
            } else if a < s1.len() {
                assert(s2[a] == s1[a]);
                assert(self.found(s1[a], prior, g1, nx, ny));
                assert(self.found(s2[b], prior, g0, nx, ny));
                lemma_agree_shorter(s2[a].checks(), g1, x, y);
                lemma_agree_shorter(s2[b].checks(), g0, x, y);
            }
        }
        assert forall|s: Seq<Seq<bool>>| #[trigger] self.wanted(s, prior, g0, x, y) implies listed(
            s2,
            s0.len() as int,
            s2.len() as int,
            s,
        ) by {
            if s[x][y] {
                lemma_agree_change(s, g0, g1, x, y);
                lemma_agree_longer(s, g1, x, y);
                assert(self.wanted(s, prior, g1, nx, ny));
                let k = choose|k: int| s0.len() <= k < s1.len() && (#[trigger] s1[k]).checks() == s;
                assert(s2[k] == s1[k]);
            } else {
                lemma_agree_longer(s, g0, x, y);
                assert(self.wanted(s, prior, g0, nx, ny));
            }
        }
    }
}

} // verus!
