//! The executable board: a 5×5 grid of cells, the rule of each colour as a
//! predicate on it, the global validator and the line detector.

use crate::cells::{
    cell_if_on_board, count_in, four_neighbors, is_step, lemma_count_in_push,
    lemma_diagonal_counts, lemma_four_count, lemma_moore_count, line_cells, moore_neighbors,
    positions, ray,
};
use crate::color::{rows_view, Color};
use crate::model::{
    all_rules_hold, blue_holds, col_complete, col_prefix_count, cyan_holds, green_holds,
    has_completed_line, in_bounds, is_layout, orange_holds, purple_holds, red_holds, row_complete,
    row_prefix_count, rows_prefix_count, rule_holds, total_checked, yellow_holds,
};
use vstd::prelude::*;

verus! {

/// One cell of the board: its row `x`, its column `y`, its colour and whether it
/// is checked.
#[derive(Debug, Clone, Copy, PartialEq, Eq, Structural)]
pub struct Cell {
    pub x: usize,
    pub y: usize,
    pub color: Color,
    pub checked: bool,
}

/// A board: five rows of five cells, indexed `[row][column]`.
#[derive(Debug, PartialEq, Eq)]
pub struct Grid(pub Vec<Vec<Cell>>);

impl Grid {
    /// The cell in row `r`, column `c`.
    pub open spec fn cell(&self, r: int, c: int) -> Cell {
        self.0@[r]@[c]
    }

    /// The board has five rows of five cells.
    pub open spec fn has_shape(&self) -> bool {
        &&& self.0@.len() == 5
        &&& self.0@[0]@.len() == 5
        &&& self.0@[1]@.len() == 5
        &&& self.0@[2]@.len() == 5
        &&& self.0@[3]@.len() == 5
        &&& self.0@[4]@.len() == 5
    }

    /// The cell in row `r`, column `c` records `r` and `c` as its position.
    pub open spec fn placed(&self, r: int, c: int) -> bool {
        self.cell(r, c).x == r && self.cell(r, c).y == c
    }

    /// The board is well formed: it has five rows of five cells, and each cell
    /// records its own position.
    pub open spec fn wf(&self) -> bool {
        &&& self.has_shape()
        &&& forall|r: int, c: int| in_bounds(r, c) ==> #[trigger] self.placed(r, c)
    }

    /// The check state of the board.
    pub open spec fn checks(&self) -> Seq<Seq<bool>> {
        Seq::new(5, |r: int| Seq::new(5, |c: int| self.cell(r, c).checked))
    }

    /// The colour layout of the board.
    pub open spec fn colors(&self) -> Seq<Seq<Color>> {
        Seq::new(5, |r: int| Seq::new(5, |c: int| self.cell(r, c).color))
    }

    /// Tells whether the board is well formed.
    pub fn is_well_formed(&self) -> (ok: bool)
        ensures
            ok == self.wf(),
    {
        if self.0.len() != 5 {
            return false;
        }
        let mut i: usize = 0;
        while i < 5
            invariant
                i <= 5,
                self.0@.len() == 5,
                forall|r: int| 0 <= r < i ==> (#[trigger] self.0@[r])@.len() == 5,
                forall|r: int, c: int| 0 <= r < i && 0 <= c < 5 ==> #[trigger] self.placed(r, c),
            decreases 5 - i,
        {
            if self.0[i].len() != 5 {
                return false;
            }
            let mut j: usize = 0;
            while j < 5
                invariant
                    i < 5,
                    j <= 5,
                    self.0@.len() == 5,
                    self.0@[i as int]@.len() == 5,
                    forall|c: int| 0 <= c < j ==> #[trigger] self.placed(i as int, c),
                decreases 5 - j,
            {
                let cell = self.0[i][j];
                if cell.x != i || cell.y != j {
                    assert(!self.placed(i as int, j as int));
                    return false;
                }
                j += 1;
            }
            i += 1;
        }
        true
    }

    /// The on-board cells adjacent to `(x, y)`, orthogonally or diagonally, in
    /// row-major order.
    pub fn get_neighbors(&self, x: usize, y: usize) -> (neighbors: Vec<(usize, usize)>)
        requires
            x < 5,
            y < 5,
        ensures
            positions(neighbors@) == moore_neighbors(x as int, y as int),
            forall|k: int|
                0 <= k < neighbors@.len() ==> (#[trigger] neighbors@[k]).0 < 5 && neighbors@[k].1
                    < 5,
    {
        let ghost r = x as int;
        let ghost c = y as int;
        let mut neighbors: Vec<(usize, usize)> = Vec::with_capacity(8);
        if x > 0 && y > 0 {
            neighbors.push((x - 1, y - 1));
        }
        let ghost a1 = cell_if_on_board(r - 1, c - 1);
        assert(positions(neighbors@) =~= a1);
        if x > 0 {
            neighbors.push((x - 1, y));
        }
        let ghost a2 = a1 + cell_if_on_board(r - 1, c);
        assert(positions(neighbors@) =~= a2);
        if x > 0 && y < 4 {
            neighbors.push((x - 1, y + 1));
        }
        let ghost a3 = a2 + cell_if_on_board(r - 1, c + 1);
        assert(positions(neighbors@) =~= a3);
        if y > 0 {
            neighbors.push((x, y - 1));
        }
        let ghost a4 = a3 + cell_if_on_board(r, c - 1);
        assert(positions(neighbors@) =~= a4);
        if y < 4 {
            neighbors.push((x, y + 1));
        }
        let ghost a5 = a4 + cell_if_on_board(r, c + 1);
        assert(positions(neighbors@) =~= a5);
        if x < 4 && y > 0 {
            neighbors.push((x + 1, y - 1));
        }
        let ghost a6 = a5 + cell_if_on_board(r + 1, c - 1);
        assert(positions(neighbors@) =~= a6);
        if x < 4 {
            neighbors.push((x + 1, y));
        }
        let ghost a7 = a6 + cell_if_on_board(r + 1, c);
        assert(positions(neighbors@) =~= a7);
        if x < 4 && y < 4 {
            neighbors.push((x + 1, y + 1));
        }
        assert(positions(neighbors@) =~= moore_neighbors(x as int, y as int));
        neighbors
    }

    /// The on-board cells orthogonally adjacent to `(x, y)`: above, below, left,
    /// right.
    pub fn get_four_neighbors(&self, x: usize, y: usize) -> (neighbors: Vec<(usize, usize)>)
        requires
            x < 5,
            y < 5,
        ensures
            positions(neighbors@) == four_neighbors(x as int, y as int),
            forall|k: int|
                0 <= k < neighbors@.len() ==> (#[trigger] neighbors@[k]).0 < 5 && neighbors@[k].1
                    < 5,
    {
        let ghost r = x as int;
        let ghost c = y as int;
        let mut neighbors: Vec<(usize, usize)> = Vec::with_capacity(4);
        if x > 0 {
            neighbors.push((x - 1, y));
        }
        let ghost a1 = cell_if_on_board(r - 1, c);
        assert(positions(neighbors@) =~= a1);
        if x < 4 {
            neighbors.push((x + 1, y));
        }
        let ghost a2 = a1 + cell_if_on_board(r + 1, c);
        assert(positions(neighbors@) =~= a2);
        if y > 0 {
            neighbors.push((x, y - 1));
        }
        let ghost a3 = a2 + cell_if_on_board(r, c - 1);
        assert(positions(neighbors@) =~= a3);
        if y < 4 {
            neighbors.push((x, y + 1));
        }
        assert(positions(neighbors@) =~= four_neighbors(x as int, y as int));
        neighbors
    }

    /// The line through `(x, y)` along the opposite steps `dir1` and `dir2`:
    /// the cells from `(x, y)` to the edge of the board in steps of `dir1`, then
    /// the cells beyond `(x, y)` to the edge in steps of `dir2`. The cell
    /// `(x, y)` itself occurs once.
    pub fn get_diagonal(&self, x: usize, y: usize, dir1: (i32, i32), dir2: (i32, i32)) -> (cells:
        Vec<(usize, usize)>)
        requires
            x < 5,
            y < 5,
            is_step(dir1.0 as int, dir1.1 as int),
            is_step(dir2.0 as int, dir2.1 as int),
        ensures
            positions(cells@) == line_cells(
                x as int,
                y as int,
                (dir1.0 as int, dir1.1 as int),
                (dir2.0 as int, dir2.1 as int),
            ),
            forall|k: int|
                0 <= k < cells@.len() ==> (#[trigger] cells@[k]).0 < 5 && cells@[k].1 < 5,
    {
        let mut cells: Vec<(usize, usize)> = Vec::with_capacity(5);
        let cx: i32 = x as i32;
        let cy: i32 = y as i32;
        walk(&mut cells, cx, cy, dir1, 5);
        walk(&mut cells, cx + dir2.0, cy + dir2.1, dir2, 4);
        cells
    }

    /// The number of entries of `cells` that are checked on this board.
    pub fn count_checked(&self, cells: &Vec<(usize, usize)>) -> (count: usize)
        requires
            self.wf(),
            forall|k: int| 0 <= k < cells@.len() ==> (#[trigger] cells@[k]).0 < 5 && cells@[k].1 < 5,
        ensures
            count == count_in(self.checks(), positions(cells@)),
            count <= cells@.len(),
    {
        let mut count: usize = 0;
        let mut k: usize = 0;
        while k < cells.len()
            invariant
                self.wf(),
                k <= cells@.len(),
                count <= k,
                forall|k: int|
                    0 <= k < cells@.len() ==> (#[trigger] cells@[k]).0 < 5 && cells@[k].1 < 5,
                count == count_in(self.checks(), positions(cells@).take(k as int)),
            decreases cells@.len() - k,
        {
            let (i, j) = cells[k];
            proof {
                let all = positions(cells@);
                assert(all.take(k + 1) =~= all.take(k as int).push((i as int, j as int)));
                lemma_count_in_push(self.checks(), all.take(k as int), (i as int, j as int));
            }
            if self.0[i][j].checked {
                count += 1;
            }
            k += 1;
        }
        assert(positions(cells@).take(k as int) =~= positions(cells@));
        count
    }

    /// Red: at least one neighbour of `(x, y)` is checked.
    pub fn check_red_rule(&self, x: usize, y: usize) -> (ok: bool)
        requires
            self.wf(),
            x < 5,
            y < 5,
        ensures
            ok == red_holds(self.checks(), x as int, y as int),
    {
        let neighbors = self.get_neighbors(x, y);
        proof {
            lemma_moore_count(self.checks(), x as int, y as int);
        }
        self.count_checked(&neighbors) >= 1
    }

    /// Blue: at most two neighbours of `(x, y)` are checked.
    pub fn check_blue_rule(&self, x: usize, y: usize) -> (ok: bool)
        requires
            self.wf(),
            x < 5,
            y < 5,
        ensures
            ok == blue_holds(self.checks(), x as int, y as int),
    {
        let neighbors = self.get_neighbors(x, y);
        proof {
            lemma_moore_count(self.checks(), x as int, y as int);
        }
        self.count_checked(&neighbors) <= 2
    }

    /// Green: row `x` and column `y` hold the same number of checked cells.
    pub fn check_green_rule(&self, x: usize, y: usize) -> (ok: bool)
        requires
            self.wf(),
            x < 5,
            y < 5,
        ensures
            ok == green_holds(self.checks(), x as int, y as int),
    {
        let mut row_count: usize = 0;
        let mut col_count: usize = 0;
        let mut k: usize = 0;
        while k < 5
            invariant
                self.wf(),
                x < 5,
                y < 5,
                k <= 5,
                row_count == row_prefix_count(self.checks(), x as int, k as int),
                col_count == col_prefix_count(self.checks(), y as int, k as int),
            decreases 5 - k,
        {
            if self.0[x][k].checked {
                row_count += 1;
            }
            if self.0[k][y].checked {
                col_count += 1;
            }
            k += 1;
        }
        row_count == col_count
    }

    /// Yellow: the two diagonal lines through `(x, y)` hold the same number of
    /// checked cells.
    pub fn check_yellow_rule(&self, x: usize, y: usize) -> (ok: bool)
        requires
            self.wf(),
            x < 5,
            y < 5,
        ensures
            ok == yellow_holds(self.checks(), x as int, y as int),
    {
        let falling = self.get_diagonal(x, y, (-1, -1), (1, 1));
        let rising = self.get_diagonal(x, y, (-1, 1), (1, -1));
        proof {
            lemma_diagonal_counts(self.checks(), x as int, y as int);
        }
        let falling_count = self.count_checked(&falling);
        let rising_count = self.count_checked(&rising);
        falling_count == rising_count
    }

    /// Purple: the number of checked neighbours of `(x, y)` is odd.
    pub fn check_purple_rule(&self, x: usize, y: usize) -> (ok: bool)
        requires
            self.wf(),
            x < 5,
            y < 5,
        ensures
            ok == purple_holds(self.checks(), x as int, y as int),
    {
        let neighbors = self.get_neighbors(x, y);
        proof {
            lemma_moore_count(self.checks(), x as int, y as int);
        }
        self.count_checked(&neighbors) % 2 == 1
    }

    /// Orange: the number of checked neighbours of `(x, y)` is even.
    pub fn check_orange_rule(&self, x: usize, y: usize) -> (ok: bool)
        requires
            self.wf(),
            x < 5,
            y < 5,
        ensures
            ok == orange_holds(self.checks(), x as int, y as int),
    {
        let neighbors = self.get_neighbors(x, y);
        proof {
            lemma_moore_count(self.checks(), x as int, y as int);
        }
        self.count_checked(&neighbors) % 2 == 0
    }

    /// Cyan: if `(x, y)` is checked, one of its orthogonal neighbours is checked
    /// too.
    pub fn check_cyan_rule(&self, x: usize, y: usize) -> (ok: bool)
        requires
            self.wf(),
            x < 5,
            y < 5,
        ensures
            ok == cyan_holds(self.checks(), x as int, y as int),
    {
        if !self.0[x][y].checked {
            return true;
        }
        let neighbors = self.get_four_neighbors(x, y);
        proof {
            lemma_four_count(self.checks(), x as int, y as int);
        }
        self.count_checked(&neighbors) >= 1
    }

    /// The rule of the colour at `(x, y)` holds there.
    pub fn check_rule_at(&self, x: usize, y: usize) -> (ok: bool)
        requires
            self.wf(),
            x < 5,
            y < 5,
        ensures
            ok == rule_holds(self.colors()[x as int][y as int], self.checks(), x as int, y as int),
    {
        match self.0[x][y].color {
            Color::Red => self.check_red_rule(x, y),
            Color::Blue => self.check_blue_rule(x, y),
            Color::Green => self.check_green_rule(x, y),
            Color::Yellow => self.check_yellow_rule(x, y),
            Color::Purple => self.check_purple_rule(x, y),
            Color::Orange => self.check_orange_rule(x, y),
            Color::Cyan => self.check_cyan_rule(x, y),
            _ => true,
        }
    }

    /// The global validator: every cell's rule holds at that cell.
    pub fn check_all_rules(&self) -> (ok: bool)
        requires
            self.wf(),
        ensures
            ok == all_rules_hold(self.colors(), self.checks()),
    {
        let mut i: usize = 0;
        while i < 5
            invariant
                self.wf(),
                i <= 5,
                forall|r: int, c: int|
                    0 <= r < i && 0 <= c < 5 ==> #[trigger] rule_holds(
                        self.colors()[r][c],
                        self.checks(),
                        r,
                        c,
                    ),
            decreases 5 - i,
        {
            let mut j: usize = 0;
            while j < 5
                invariant
                    self.wf(),
                    i < 5,
                    j <= 5,
                    forall|r: int, c: int|
                        0 <= r < i && 0 <= c < 5 ==> #[trigger] rule_holds(
                            self.colors()[r][c],
                            self.checks(),
                            r,
                            c,
                        ),
                    forall|c: int|
                        0 <= c < j ==> #[trigger] rule_holds(
                            self.colors()[i as int][c],
                            self.checks(),
                            i as int,
                            c,
                        ),
                decreases 5 - j,
            {
                if !self.check_rule_at(i, j) {
                    assert(in_bounds(i as int, j as int));
                    return false;
                }
                j += 1;
            }
            i += 1;
        }
        true
    }

    /// The number of checked cells on the board.
    pub fn count_total_checked(&self) -> (total: usize)
        requires
            self.wf(),
        ensures
            total == total_checked(self.checks()),
            total <= 25,
    {
        let mut total: usize = 0;
        let mut i: usize = 0;
        while i < 5
            invariant
                self.wf(),
                i <= 5,
                total == rows_prefix_count(self.checks(), i as int),
                total <= 5 * i,
            decreases 5 - i,
        {
            let mut j: usize = 0;
            let mut in_row: usize = 0;
            while j < 5
                invariant
                    self.wf(),
                    i < 5,
                    j <= 5,
                    in_row == row_prefix_count(self.checks(), i as int, j as int),
                    in_row <= j,
                decreases 5 - j,
            {
                if self.0[i][j].checked {
                    in_row += 1;
                }
                j += 1;
            }
            total += in_row;
            i += 1;
        }
        total
    }

    /// Tells whether at most `max_checked` cells are checked.
    pub fn check_total_checked(&self, max_checked: usize) -> (ok: bool)
        requires
            self.wf(),
        ensures
            ok == (total_checked(self.checks()) <= max_checked),
    {
        self.count_total_checked() <= max_checked
    }

    /// The line detector: a row, a column, the main diagonal or the
    /// anti-diagonal is fully checked.
    pub fn has_five_in_a_row(&self) -> (found: bool)
        requires
            self.wf(),
        ensures
            found == has_completed_line(self.checks()),
    {
        let ghost s = self.checks();
        let mut k: usize = 0;
        while k < 5
            invariant
                self.wf(),
                s == self.checks(),
                k <= 5,
                forall|r: int| 0 <= r < k ==> !#[trigger] row_complete(s, r),
                forall|c: int| 0 <= c < k ==> !#[trigger] col_complete(s, c),
            decreases 5 - k,
        {
            if self.0[k][0].checked && self.0[k][1].checked && self.0[k][2].checked
                && self.0[k][3].checked && self.0[k][4].checked {
                assert(row_complete(s, k as int));
                return true;
            }
            if self.0[0][k].checked && self.0[1][k].checked && self.0[2][k].checked
                && self.0[3][k].checked && self.0[4][k].checked {
                assert(col_complete(s, k as int));
                return true;
            }
            k += 1;
        }
        let main = self.0[0][0].checked && self.0[1][1].checked && self.0[2][2].checked
            && self.0[3][3].checked && self.0[4][4].checked;
        let anti = self.0[0][4].checked && self.0[1][3].checked && self.0[2][2].checked
            && self.0[3][1].checked && self.0[4][0].checked;
        main || anti
    }

    /// The board of the layout `color_grid` with no cell checked.
    pub fn new_blank(color_grid: &[Vec<Color>]) -> (grid: Grid)
        requires
            is_layout(rows_view(color_grid@)),
        ensures
            grid.wf(),
            grid.colors() == rows_view(color_grid@),
            forall|r: int, c: int| in_bounds(r, c) ==> !#[trigger] grid.checks()[r][c],
    {
        let mut rows: Vec<Vec<Cell>> = Vec::new();
        let mut i: usize = 0;
        while i < 5
            invariant
                is_layout(rows_view(color_grid@)),
                i <= 5,
                rows@.len() == i,
                forall|r: int| 0 <= r < i ==> (#[trigger] rows@[r])@.len() == 5,
                forall|r: int, c: int|
                    0 <= r < i && 0 <= c < 5 ==> (#[trigger] rows@[r]@[c]) == (Cell {
                        x: r as usize,
                        y: c as usize,
                        color: color_grid@[r]@[c],
                        checked: false,
                    }),
            decreases 5 - i,
        {
            let mut row: Vec<Cell> = Vec::new();
            let mut j: usize = 0;
            while j < 5
                invariant
                    is_layout(rows_view(color_grid@)),
                    i < 5,
                    j <= 5,
                    row@.len() == j,
                    forall|c: int|
                        0 <= c < j ==> (#[trigger] row@[c]) == (Cell {
                            x: i,
                            y: c as usize,
                            color: color_grid@[i as int]@[c],
                            checked: false,
                        }),
                decreases 5 - j,
            {
                assert(rows_view(color_grid@)[i as int].len() == 5);
                row.push(Cell { x: i, y: j, color: color_grid[i][j], checked: false });
                j += 1;
            }
            rows.push(row);
            i += 1;
        }
        let grid = Grid(rows);
        assert(grid.wf()) by {
            assert forall|r: int, c: int| in_bounds(r, c) implies #[trigger] grid.placed(r, c) by {
                assert(grid.0@[r]@[c].x == r);
            }
        }
        assert(grid.colors() =~~= rows_view(color_grid@));
        grid
    }

    /// Tells whether this board and `other` have the same check state.
    pub fn has_same_checks(&self, other: &Grid) -> (same: bool)
        requires
            self.wf(),
            other.wf(),
        ensures
            same == (self.checks() == other.checks()),
    {
        let mut i: usize = 0;
        while i < 5
            invariant
                self.wf(),
                other.wf(),
                i <= 5,
                forall|r: int, c: int|
                    0 <= r < i && 0 <= c < 5 ==> self.checks()[r][c] == other.checks()[r][c],
            decreases 5 - i,
        {
            let mut j: usize = 0;
            while j < 5
                invariant
                    self.wf(),
                    other.wf(),
                    i < 5,
                    j <= 5,
                    forall|r: int, c: int|
                        0 <= r < i && 0 <= c < 5 ==> self.checks()[r][c] == other.checks()[r][c],
                    forall|c: int|
                        0 <= c < j ==> self.checks()[i as int][c] == other.checks()[i as int][c],
                decreases 5 - j,
            {
                if self.0[i][j].checked != other.0[i][j].checked {
                    assert(self.checks()[i as int][j as int] != other.checks()[i as int][j as int]);
                    return false;
                }
                j += 1;
            }
            i += 1;
        }
        assert(self.checks() =~~= other.checks());
        true
    }

    /// Sets whether the cell `(x, y)` is checked and leaves the rest of the
    /// board as it is.
    pub fn set_checked(&mut self, x: usize, y: usize, checked: bool)
        requires
            old(self).wf(),
            x < 5,
            y < 5,
        ensures
            final(self).wf(),
            final(self).colors() == old(self).colors(),
            final(self).checks() == old(self).checks().update(
                x as int,
                old(self).checks()[x as int].update(y as int, checked),
            ),
    {
        let ghost before = *self;
        self.0[x][y].checked = checked;
        proof {
            assert forall|r: int, c: int| in_bounds(r, c) implies #[trigger] self.placed(r, c) by {
                assert(before.placed(r, c));
            }
            assert(self.colors() =~~= before.colors());
            assert(self.checks() =~~= before.checks().update(
                x as int,
                before.checks()[x as int].update(y as int, checked),
            ));
        }
    }
}

impl Clone for Grid {
    /// A copy of the board, cell for cell.
    fn clone(&self) -> (copy: Self)
        ensures
            copy.0@.len() == self.0@.len(),
            forall|r: int| 0 <= r < self.0@.len() ==> (#[trigger] copy.0@[r])@ == self.0@[r]@,
            copy.wf() == self.wf(),
            self.has_shape() ==> copy.checks() == self.checks(),
            self.has_shape() ==> copy.colors() == self.colors(),
    {
        let mut rows: Vec<Vec<Cell>> = Vec::with_capacity(self.0.len());
        let mut i: usize = 0;
        while i < self.0.len()
            invariant
                i <= self.0@.len(),
                rows@.len() == i,
                forall|r: int| 0 <= r < i ==> (#[trigger] rows@[r])@ == self.0@[r]@,
            decreases self.0@.len() - i,
        {
            let mut row: Vec<Cell> = Vec::with_capacity(self.0[i].len());
            let mut j: usize = 0;
            while j < self.0[i].len()
                invariant
                    i < self.0@.len(),
                    j <= self.0@[i as int]@.len(),
                    row@.len() == j,
                    forall|c: int| 0 <= c < j ==> (#[trigger] row@[c]) == self.0@[i as int]@[c],
                decreases self.0@[i as int]@.len() - j,
            {
                row.push(self.0[i][j]);
                j += 1;
            }
            assert(row@ =~= self.0@[i as int]@);
            rows.push(row);
            i += 1;
        }
        let copy = Grid(rows);
        proof {
            if self.wf() {
                assert forall|r: int, c: int| in_bounds(r, c) implies #[trigger] copy.placed(
                    r,
                    c,
                ) by {
                    assert(self.placed(r, c));
                }
            }
            if copy.wf() {
                assert forall|r: int, c: int| in_bounds(r, c) implies #[trigger] self.placed(
                    r,
                    c,
                ) by {
                    assert(copy.placed(r, c));
                }
            }
            if self.has_shape() {
                assert(copy.checks() =~~= self.checks());
                assert(copy.colors() =~~= self.colors());
            }
        }
        copy
    }
}

/// The number of steps of `(dr, dc)` that can still be made from `(r, c)` before
/// leaving the board, counted along the first part of the step that is not 0.
pub open spec fn room(r: int, c: int, dr: int, dc: int) -> int {
    if dr > 0 {
        4 - r
    } else if dr < 0 {
        r
    } else if dc > 0 {
        4 - c
    } else {
        c
    }
}

/// Appends to `cells` the cells met when walking from `(cx, cy)` in steps of
/// `dir` until the board is left.
fn walk(cells: &mut Vec<(usize, usize)>, cx: i32, cy: i32, dir: (i32, i32), limit: usize)
    requires
        is_step(dir.0 as int, dir.1 as int),
        -1 <= cx <= 5,
        -1 <= cy <= 5,
        limit <= 5,
        in_bounds(cx as int, cy as int) ==> room(cx as int, cy as int, dir.0 as int, dir.1 as int)
            < limit,
        forall|k: int|
            0 <= k < old(cells)@.len() ==> (#[trigger] old(cells)@[k]).0 < 5 && old(cells)@[k].1
                < 5,
    ensures
        positions(final(cells)@) == positions(old(cells)@) + ray(
            cx as int,
            cy as int,
            dir.0 as int,
            dir.1 as int,
            limit as nat,
        ),
        forall|k: int|
            0 <= k < final(cells)@.len() ==> (#[trigger] final(cells)@[k]).0 < 5
                && final(cells)@[k].1 < 5,
{
    let mut px: i32 = cx;
    let mut py: i32 = cy;
    let ghost mut fuel: nat = limit as nat;
    while 0 <= px && px < 5 && 0 <= py && py < 5
        invariant
            is_step(dir.0 as int, dir.1 as int),
            -1 <= px <= 5,
            -1 <= py <= 5,
            fuel <= 5,
            in_bounds(px as int, py as int) ==> room(
                px as int,
                py as int,
                dir.0 as int,
                dir.1 as int,
            ) < fuel,
            positions(cells@) + ray(px as int, py as int, dir.0 as int, dir.1 as int, fuel)
                == positions(old(cells)@) + ray(
                cx as int,
                cy as int,
                dir.0 as int,
                dir.1 as int,
                limit as nat,
            ),
            forall|k: int| 0 <= k < cells@.len() ==> (#[trigger] cells@[k]).0 < 5 && cells@[k].1 < 5,
        decreases fuel,
    {
        let ghost before = positions(cells@);
        let ghost rest = ray(
            px as int + dir.0 as int,
            py as int + dir.1 as int,
            dir.0 as int,
            dir.1 as int,
            (fuel - 1) as nat,
        );
        cells.push((px as usize, py as usize));
        proof {
            assert(positions(cells@) =~= before.push((px as int, py as int)));
            assert(before.push((px as int, py as int)) + rest =~= before + (seq![
                (px as int, py as int),
            ] + rest));
            fuel = (fuel - 1) as nat;
        }
        px = px + dir.0;
        py = py + dir.1;
    }
}

} // verus!
