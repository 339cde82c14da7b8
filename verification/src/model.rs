//! The mathematical model of the puzzle: check states, colour layouts, the rule
//! attached to each colour, completed lines and solutions.
//!
//! A check state is a `Seq<Seq<bool>>` with five rows of five entries, indexed
//! `[row][column]`; a colour layout is a `Seq<Seq<Color>>` of the same shape.
//! Everything here is ghost code. The executable board states its contracts over
//! these functions.

use crate::color::Color;
use vstd::prelude::*;

verus! {

/// The position `(r, c)` lies on the 5×5 board.
pub open spec fn in_bounds(r: int, c: int) -> bool {
    0 <= r < 5 && 0 <= c < 5
}

/// `s` has the shape of a check state: five rows of five entries.
pub open spec fn is_check_state(s: Seq<Seq<bool>>) -> bool {
    &&& s.len() == 5
    &&& s[0].len() == 5
    &&& s[1].len() == 5
    &&& s[2].len() == 5
    &&& s[3].len() == 5
    &&& s[4].len() == 5
}

/// `l` has the shape of a colour layout: five rows of five entries.
pub open spec fn is_layout(l: Seq<Seq<Color>>) -> bool {
    &&& l.len() == 5
    &&& l[0].len() == 5
    &&& l[1].len() == 5
    &&& l[2].len() == 5
    &&& l[3].len() == 5
    &&& l[4].len() == 5
}

/// The cell `(r, c)` is on the board and checked. Positions off the board count
/// as unchecked, so that sums over a neighbourhood need no case split.
pub open spec fn checked(s: Seq<Seq<bool>>, r: int, c: int) -> bool {
    in_bounds(r, c) && s[r][c]
}

/// 1 if `(r, c)` is on the board and checked, else 0.
pub open spec fn tick(s: Seq<Seq<bool>>, r: int, c: int) -> int {
    if checked(s, r, c) {
        1
    } else {
        0
    }
}

/// The number of checked cells among the up to eight cells adjacent to `(r, c)`,
/// orthogonally or diagonally.
pub open spec fn neighbor_count(s: Seq<Seq<bool>>, r: int, c: int) -> int {
    tick(s, r - 1, c - 1) + tick(s, r - 1, c) + tick(s, r - 1, c + 1) + tick(s, r, c - 1) + tick(
        s,
        r,
        c + 1,
    ) + tick(s, r + 1, c - 1) + tick(s, r + 1, c) + tick(s, r + 1, c + 1)
}

/// The number of checked cells among the up to four cells orthogonally adjacent
/// to `(r, c)`.
pub open spec fn four_neighbor_count(s: Seq<Seq<bool>>, r: int, c: int) -> int {
    tick(s, r - 1, c) + tick(s, r + 1, c) + tick(s, r, c - 1) + tick(s, r, c + 1)
}

/// The number of checked cells among the first `n` cells of row `r`.
pub open spec fn row_prefix_count(s: Seq<Seq<bool>>, r: int, n: int) -> int {
    (if n > 0 {
        tick(s, r, 0)
    } else {
        0
    }) + (if n > 1 {
        tick(s, r, 1)
    } else {
        0
    }) + (if n > 2 {
        tick(s, r, 2)
    } else {
        0
    }) + (if n > 3 {
        tick(s, r, 3)
    } else {
        0
    }) + (if n > 4 {
        tick(s, r, 4)
    } else {
        0
    })
}

/// The number of checked cells among the first `n` cells of column `c`.
pub open spec fn col_prefix_count(s: Seq<Seq<bool>>, c: int, n: int) -> int {
    (if n > 0 {
        tick(s, 0, c)
    } else {
        0
    }) + (if n > 1 {
        tick(s, 1, c)
    } else {
        0
    }) + (if n > 2 {
        tick(s, 2, c)
    } else {
        0
    }) + (if n > 3 {
        tick(s, 3, c)
    } else {
        0
    }) + (if n > 4 {
        tick(s, 4, c)
    } else {
        0
    })
}

/// The number of checked cells in row `r`.
pub open spec fn row_count(s: Seq<Seq<bool>>, r: int) -> int {
    tick(s, r, 0) + tick(s, r, 1) + tick(s, r, 2) + tick(s, r, 3) + tick(s, r, 4)
}

/// The number of checked cells in column `c`.
pub open spec fn col_count(s: Seq<Seq<bool>>, c: int) -> int {
    tick(s, 0, c) + tick(s, 1, c) + tick(s, 2, c) + tick(s, 3, c) + tick(s, 4, c)
}

/// The number of checked cells on the line through `(r, c)` that runs from the
/// upper left to the lower right: the cells `(r + d, c + d)` that are on the
/// board.
pub open spec fn falling_diagonal_count(s: Seq<Seq<bool>>, r: int, c: int) -> int {
    tick(s, r - 4, c - 4) + tick(s, r - 3, c - 3) + tick(s, r - 2, c - 2) + tick(s, r - 1, c - 1)
        + tick(s, r, c) + tick(s, r + 1, c + 1) + tick(s, r + 2, c + 2) + tick(s, r + 3, c + 3)
        + tick(s, r + 4, c + 4)
}

/// The number of checked cells on the line through `(r, c)` that runs from the
/// lower left to the upper right: the cells `(r - d, c + d)` that are on the
/// board.
pub open spec fn rising_diagonal_count(s: Seq<Seq<bool>>, r: int, c: int) -> int {
    tick(s, r + 4, c - 4) + tick(s, r + 3, c - 3) + tick(s, r + 2, c - 2) + tick(s, r + 1, c - 1)
        + tick(s, r, c) + tick(s, r - 1, c + 1) + tick(s, r - 2, c + 2) + tick(s, r - 3, c + 3)
        + tick(s, r - 4, c + 4)
}

/// The number of checked cells in the first `n` rows.
pub open spec fn rows_prefix_count(s: Seq<Seq<bool>>, n: int) -> int {
    (if n > 0 {
        row_count(s, 0)
    } else {
        0
    }) + (if n > 1 {
        row_count(s, 1)
    } else {
        0
    }) + (if n > 2 {
        row_count(s, 2)
    } else {
        0
    }) + (if n > 3 {
        row_count(s, 3)
    } else {
        0
    }) + (if n > 4 {
        row_count(s, 4)
    } else {
        0
    })
}

/// The number of checked cells on the whole board.
pub open spec fn total_checked(s: Seq<Seq<bool>>) -> int {
    row_count(s, 0) + row_count(s, 1) + row_count(s, 2) + row_count(s, 3) + row_count(s, 4)
}

/// Red: at least one neighbour is checked.
pub open spec fn red_holds(s: Seq<Seq<bool>>, r: int, c: int) -> bool {
    neighbor_count(s, r, c) >= 1
}

/// Blue: at most two neighbours are checked.
pub open spec fn blue_holds(s: Seq<Seq<bool>>, r: int, c: int) -> bool {
    neighbor_count(s, r, c) <= 2
}

/// Green: row `r` and column `c` hold the same number of checked cells.
pub open spec fn green_holds(s: Seq<Seq<bool>>, r: int, c: int) -> bool {
    row_count(s, r) == col_count(s, c)
}

/// Yellow: the two diagonal lines through `(r, c)` hold the same number of
/// checked cells, each distinct cell counted once.
pub open spec fn yellow_holds(s: Seq<Seq<bool>>, r: int, c: int) -> bool {
    falling_diagonal_count(s, r, c) == rising_diagonal_count(s, r, c)
}

/// Purple: the number of checked neighbours is odd.
pub open spec fn purple_holds(s: Seq<Seq<bool>>, r: int, c: int) -> bool {
    neighbor_count(s, r, c) % 2 == 1
}

/// Orange: the number of checked neighbours is even; zero is even.
pub open spec fn orange_holds(s: Seq<Seq<bool>>, r: int, c: int) -> bool {
    neighbor_count(s, r, c) % 2 == 0
}

/// Cyan: a checked cell has a checked orthogonal neighbour; an unchecked cell
/// asks for nothing.
pub open spec fn cyan_holds(s: Seq<Seq<bool>>, r: int, c: int) -> bool {
    checked(s, r, c) ==> four_neighbor_count(s, r, c) >= 1
}

/// The rule that `color` imposes at `(r, c)`. Black and White impose none: that
/// a Black cell is checked is a condition on solutions, see `blacks_checked`.
pub open spec fn rule_holds(color: Color, s: Seq<Seq<bool>>, r: int, c: int) -> bool {
    match color {
        Color::Red => red_holds(s, r, c),
        Color::Blue => blue_holds(s, r, c),
        Color::Green => green_holds(s, r, c),
        Color::Yellow => yellow_holds(s, r, c),
        Color::Purple => purple_holds(s, r, c),
        Color::Orange => orange_holds(s, r, c),
        Color::Cyan => cyan_holds(s, r, c),
        Color::Black => true,
        Color::White => true,
    }
}

/// The global validator: every cell's rule holds at that cell.
pub open spec fn all_rules_hold(l: Seq<Seq<Color>>, s: Seq<Seq<bool>>) -> bool {
    forall|r: int, c: int| in_bounds(r, c) ==> #[trigger] rule_holds(l[r][c], s, r, c)
}

/// Row `r` is fully checked.
pub open spec fn row_complete(s: Seq<Seq<bool>>, r: int) -> bool {
    s[r][0] && s[r][1] && s[r][2] && s[r][3] && s[r][4]
}

/// Column `c` is fully checked.
pub open spec fn col_complete(s: Seq<Seq<bool>>, c: int) -> bool {
    s[0][c] && s[1][c] && s[2][c] && s[3][c] && s[4][c]
}

/// The main diagonal `(i, i)` is fully checked.
pub open spec fn main_diagonal_complete(s: Seq<Seq<bool>>) -> bool {
    s[0][0] && s[1][1] && s[2][2] && s[3][3] && s[4][4]
}

/// The anti-diagonal `(i, 4 - i)` is fully checked.
pub open spec fn anti_diagonal_complete(s: Seq<Seq<bool>>) -> bool {
    s[0][4] && s[1][3] && s[2][2] && s[3][1] && s[4][0]
}

/// One of the five rows is fully checked.
pub open spec fn some_row_complete(s: Seq<Seq<bool>>) -> bool {
    row_complete(s, 0) || row_complete(s, 1) || row_complete(s, 2) || row_complete(s, 3)
        || row_complete(s, 4)
}

/// One of the five columns is fully checked.
pub open spec fn some_col_complete(s: Seq<Seq<bool>>) -> bool {
    col_complete(s, 0) || col_complete(s, 1) || col_complete(s, 2) || col_complete(s, 3)
        || col_complete(s, 4)
}

/// At least one of the twelve candidate lines is fully checked: a row, a column,
/// the main diagonal or the anti-diagonal.
pub open spec fn has_completed_line(s: Seq<Seq<bool>>) -> bool {
    some_row_complete(s) || some_col_complete(s) || main_diagonal_complete(s)
        || anti_diagonal_complete(s)
}

/// The cell `(r, c)` is checked if it is Black.
pub open spec fn black_forced(l: Seq<Seq<Color>>, s: Seq<Seq<bool>>, r: int, c: int) -> bool {
    l[r][c] == Color::Black ==> s[r][c]
}

/// Every Black cell is checked.
pub open spec fn blacks_checked(l: Seq<Seq<Color>>, s: Seq<Seq<bool>>) -> bool {
    forall|r: int, c: int| in_bounds(r, c) ==> #[trigger] black_forced(l, s, r, c)
}

/// `s` solves the layout `l` under the cap `max_checked`: it is a check state in
/// which every Black cell is checked, every cell's rule holds, a line is
/// complete, and at most `max_checked` cells are checked.
pub open spec fn is_solution(l: Seq<Seq<Color>>, s: Seq<Seq<bool>>, max_checked: int) -> bool {
    &&& is_check_state(s)
    &&& blacks_checked(l, s)
    &&& all_rules_hold(l, s)
    &&& has_completed_line(s)
    &&& total_checked(s) <= max_checked
}

/// The check state mirrored at the main diagonal: rows become columns.
pub open spec fn transpose(s: Seq<Seq<bool>>) -> Seq<Seq<bool>> {
    Seq::new(5, |i: int| Seq::new(5, |j: int| s[j][i]))
}

/// `t` checks every cell that `s` checks, and possibly more.
pub open spec fn checks_more(s: Seq<Seq<bool>>, t: Seq<Seq<bool>>) -> bool {
    forall|r: int, c: int| in_bounds(r, c) && #[trigger] s[r][c] ==> t[r][c]
}

} // verus!
