//! Lists of board positions: the neighbourhoods and diagonals of a cell, and the
//! number of checked cells in such a list.

use crate::model::{falling_diagonal_count, four_neighbor_count, in_bounds, neighbor_count, rising_diagonal_count, tick};
use vstd::prelude::*;

verus! {

/// The one-element list `[(r, c)]` if `(r, c)` is on the board, else the empty
/// list.
pub open spec fn cell_if_on_board(r: int, c: int) -> Seq<(int, int)> {
    if in_bounds(r, c) {
        seq![(r, c)]
    } else {
        Seq::empty()
    }
}

/// The cells adjacent to `(r, c)`, orthogonally or diagonally, that are on the
/// board, in row-major order.
pub open spec fn moore_neighbors(r: int, c: int) -> Seq<(int, int)> {
    cell_if_on_board(r - 1, c - 1) + cell_if_on_board(r - 1, c) + cell_if_on_board(r - 1, c + 1)
        + cell_if_on_board(r, c - 1) + cell_if_on_board(r, c + 1) + cell_if_on_board(r + 1, c - 1)
        + cell_if_on_board(r + 1, c) + cell_if_on_board(r + 1, c + 1)
}

/// The cells orthogonally adjacent to `(r, c)` that are on the board: the one
/// above, the one below, the one to the left, the one to the right.
pub open spec fn four_neighbors(r: int, c: int) -> Seq<(int, int)> {
    cell_if_on_board(r - 1, c) + cell_if_on_board(r + 1, c) + cell_if_on_board(r, c - 1)
        + cell_if_on_board(r, c + 1)
}

/// `(dr, dc)` moves to an adjacent cell: each part is -1, 0 or 1, and not both
/// are 0.
pub open spec fn is_step(dr: int, dc: int) -> bool {
    -1 <= dr <= 1 && -1 <= dc <= 1 && (dr != 0 || dc != 0)
}

/// The cells met when walking from `(r, c)` in steps of `(dr, dc)`, `(r, c)`
/// itself first, up to the first position off the board and at most `n` cells.
pub open spec fn ray(r: int, c: int, dr: int, dc: int, n: nat) -> Seq<(int, int)>
    decreases n,
{
    if n == 0 || !in_bounds(r, c) {
        Seq::empty()
    } else {
        seq![(r, c)] + ray(r + dr, c + dc, dr, dc, (n - 1) as nat)
    }
}

/// The line through `(r, c)` along the two opposite steps `d1` and `d2`: the
/// cells from `(r, c)` to the edge in steps of `d1`, then those beyond `(r, c)`
/// to the edge in steps of `d2`. Each cell of the line occurs once.
pub open spec fn line_cells(r: int, c: int, d1: (int, int), d2: (int, int)) -> Seq<(int, int)> {
    ray(r, c, d1.0, d1.1, 5) + ray(r + d2.0, c + d2.1, d2.0, d2.1, 4)
}

/// A list of positions given by machine integers, as a list of pairs of `int`.
pub open spec fn positions(v: Seq<(usize, usize)>) -> Seq<(int, int)> {
    v.map_values(|p: (usize, usize)| (p.0 as int, p.1 as int))
}

/// The number of entries of `cells` that are checked in `s`. An entry that
/// occurs twice counts twice.
pub open spec fn count_in(s: Seq<Seq<bool>>, cells: Seq<(int, int)>) -> int
    decreases cells.len(),
{
    if cells.len() == 0 {
        0
    } else {
        count_in(s, cells.drop_last()) + tick(s, cells.last().0, cells.last().1)
    }
}

/// The number of checked cells along a ray, summed from its start.
pub open spec fn ray_count(s: Seq<Seq<bool>>, r: int, c: int, dr: int, dc: int, n: nat) -> int
    decreases n,
{
    if n == 0 || !in_bounds(r, c) {
        0
    } else {
        tick(s, r, c) + ray_count(s, r + dr, c + dc, dr, dc, (n - 1) as nat)
    }
}

/// Appending one position adds its tick.
pub proof fn lemma_count_in_push(s: Seq<Seq<bool>>, cells: Seq<(int, int)>, p: (int, int))
    ensures
        count_in(s, cells.push(p)) == count_in(s, cells) + tick(s, p.0, p.1),
{
    assert(cells.push(p).drop_last() =~= cells);
}

/// The count of a concatenation is the sum of the counts.
pub proof fn lemma_count_in_concat(s: Seq<Seq<bool>>, a: Seq<(int, int)>, b: Seq<(int, int)>)
    ensures
        count_in(s, a + b) == count_in(s, a) + count_in(s, b),
    decreases b.len(),
{
    if b.len() == 0 {
        assert(a + b =~= a);
    } else {
        lemma_count_in_concat(s, a, b.drop_last());
        assert((a + b).drop_last() =~= a + b.drop_last());
        assert((a + b).last() == b.last());
    }
}

/// The count of a list of at most one on-board position.
pub proof fn lemma_count_in_cell(s: Seq<Seq<bool>>, r: int, c: int)
    ensures
        count_in(s, cell_if_on_board(r, c)) == tick(s, r, c),
{
    if in_bounds(r, c) {
        lemma_count_in_push(s, Seq::empty(), (r, c));
        assert(Seq::<(int, int)>::empty().push((r, c)) =~= seq![(r, c)]);
    }
}

/// The checked cells in the list of Moore neighbours number `neighbor_count`.
pub proof fn lemma_moore_count(s: Seq<Seq<bool>>, r: int, c: int)
    ensures
        count_in(s, moore_neighbors(r, c)) == neighbor_count(s, r, c),
{
    let a1 = cell_if_on_board(r - 1, c - 1);
    let a2 = a1 + cell_if_on_board(r - 1, c);
    let a3 = a2 + cell_if_on_board(r - 1, c + 1);
    let a4 = a3 + cell_if_on_board(r, c - 1);
    let a5 = a4 + cell_if_on_board(r, c + 1);
    let a6 = a5 + cell_if_on_board(r + 1, c - 1);
    let a7 = a6 + cell_if_on_board(r + 1, c);
    lemma_count_in_cell(s, r - 1, c - 1);
    lemma_count_in_cell(s, r - 1, c);
    lemma_count_in_cell(s, r - 1, c + 1);
    lemma_count_in_cell(s, r, c - 1);
    lemma_count_in_cell(s, r, c + 1);
    lemma_count_in_cell(s, r + 1, c - 1);
    lemma_count_in_cell(s, r + 1, c);
    lemma_count_in_cell(s, r + 1, c + 1);
    lemma_count_in_concat(s, a1, cell_if_on_board(r - 1, c));
    lemma_count_in_concat(s, a2, cell_if_on_board(r - 1, c + 1));
    lemma_count_in_concat(s, a3, cell_if_on_board(r, c - 1));
    lemma_count_in_concat(s, a4, cell_if_on_board(r, c + 1));
    lemma_count_in_concat(s, a5, cell_if_on_board(r + 1, c - 1));
    lemma_count_in_concat(s, a6, cell_if_on_board(r + 1, c));
    lemma_count_in_concat(s, a7, cell_if_on_board(r + 1, c + 1));
}

/// The checked cells in the list of orthogonal neighbours number
/// `four_neighbor_count`.
pub proof fn lemma_four_count(s: Seq<Seq<bool>>, r: int, c: int)
    ensures
        count_in(s, four_neighbors(r, c)) == four_neighbor_count(s, r, c),
{
    let a1 = cell_if_on_board(r - 1, c);
    let a2 = a1 + cell_if_on_board(r + 1, c);
    let a3 = a2 + cell_if_on_board(r, c - 1);
    lemma_count_in_cell(s, r - 1, c);
    lemma_count_in_cell(s, r + 1, c);
    lemma_count_in_cell(s, r, c - 1);
    lemma_count_in_cell(s, r, c + 1);
    lemma_count_in_concat(s, a1, cell_if_on_board(r + 1, c));
    lemma_count_in_concat(s, a2, cell_if_on_board(r, c - 1));
    lemma_count_in_concat(s, a3, cell_if_on_board(r, c + 1));
}

/// The checked cells in a ray number `ray_count`.
pub proof fn lemma_ray_count(s: Seq<Seq<bool>>, r: int, c: int, dr: int, dc: int, n: nat)
    ensures
        count_in(s, ray(r, c, dr, dc, n)) == ray_count(s, r, c, dr, dc, n),
    decreases n,
{
    if n == 0 || !in_bounds(r, c) {
    } else {
        let rest = ray(r + dr, c + dc, dr, dc, (n - 1) as nat);
        lemma_ray_count(s, r + dr, c + dc, dr, dc, (n - 1) as nat);
        lemma_count_in_concat(s, seq![(r, c)], rest);
        lemma_count_in_cell(s, r, c);
    }
}

/// The checked cells on the line through `(r, c)` from the upper left to the
/// lower right number `falling_diagonal_count`; those on the line from the lower
/// left to the upper right number `rising_diagonal_count`.
pub proof fn lemma_diagonal_counts(s: Seq<Seq<bool>>, r: int, c: int)
    requires
        in_bounds(r, c),
    ensures
        count_in(s, line_cells(r, c, (-1, -1), (1, 1))) == falling_diagonal_count(s, r, c),
        count_in(s, line_cells(r, c, (-1, 1), (1, -1))) == rising_diagonal_count(s, r, c),
{
    lemma_count_in_concat(s, ray(r, c, -1, -1, 5), ray(r + 1, c + 1, 1, 1, 4));
    lemma_ray_count(s, r, c, -1, -1, 5);
    lemma_ray_count(s, r + 1, c + 1, 1, 1, 4);
    lemma_count_in_concat(s, ray(r, c, -1, 1, 5), ray(r + 1, c - 1, 1, -1, 4));
    lemma_ray_count(s, r, c, -1, 1, 5);
    lemma_ray_count(s, r + 1, c - 1, 1, -1, 4);
    reveal_with_fuel(ray_count, 6);
}

} // verus!
