//! The board generator: a random colour layout with at least ten White cells.
//!
//! The random choices come from the `rand` crate. What is done with each choice
//! is verified for every value that the choice can have.

use crate::color::{rows_view, Color};
use crate::model::{in_bounds, is_layout};
use rand::rngs::ThreadRng;
use rand::seq::SliceRandom;
use rand::Rng;
use vstd::prelude::*;

verus! {

/// The least number of White cells in a generated layout.
pub const MIN_WHITE: usize = 10;

/// The colour at the `p`-th cell of `l` in row-major order.
pub open spec fn flat(l: Seq<Seq<Color>>, p: int) -> Color {
    l[p / 5][p % 5]
}

/// The number of White cells among the first `p` cells of `l` in row-major
/// order.
pub open spec fn white_upto(l: Seq<Seq<Color>>, p: int) -> int
    decreases p,
{
    if p <= 0 {
        0
    } else {
        white_upto(l, p - 1) + (if flat(l, p - 1) == Color::White {
            1int
        } else {
            0int
        })
    }
}

/// The number of White cells of `l`.
pub open spec fn white_count(l: Seq<Seq<Color>>) -> int {
    white_upto(l, 25)
}

/// The layout `l` with the cell `(r, c)` made White.
pub open spec fn whitened(l: Seq<Seq<Color>>, r: int, c: int) -> Seq<Seq<Color>> {
    l.update(r, l[r].update(c, Color::White))
}

/// The handle of `rand` to the random number generator of the current thread.
#[verifier::external_type_specification]
#[verifier::external_body]
pub struct ExThreadRng(rand::rngs::ThreadRng);

/// `rand::thread_rng`: the random number generator of the current thread.
/// Nothing is claimed of it. It fails only where the system gives no seed.
#[verifier::external_body]
fn thread_rng() -> ThreadRng {
    rand::thread_rng()
}

/// `rand::seq::SliceRandom::choose` on a list of colours: one of the entries
/// of the list, or `None` if the list is empty. Which entry is not claimed. It
/// fails only where the system gives the generator no seed.
#[verifier::external_body]
fn choose_color(rng: &mut ThreadRng, palette: &Vec<Color>) -> (color: Option<Color>)
    ensures
        match color {
            Some(c) => palette@.contains(c),
            None => palette@.len() == 0,
        },
{
    palette.choose(rng).copied()
}

/// `rand::Rng::gen_range` on the range `0..bound`, which is not empty: the
/// result lies in that range. Where in it is not claimed. It fails only where
/// the system gives the generator no seed.
#[verifier::external_body]
fn gen_below(rng: &mut ThreadRng, bound: usize) -> (index: usize)
    requires
        bound > 0,
    ensures
        index < bound,
{
    rng.gen_range(0..bound)
}

/// The nine colours from which a layout is drawn.
pub fn palette() -> (colors: Vec<Color>)
    ensures
        colors@ == seq![
            Color::Red,
            Color::Blue,
            Color::Black,
            Color::Green,
            Color::Yellow,
            Color::Purple,
            Color::White,
            Color::Orange,
            Color::Cyan,
        ],
{
    let mut colors: Vec<Color> = Vec::new();
    colors.push(Color::Red);
    colors.push(Color::Blue);
    colors.push(Color::Black);
    colors.push(Color::Green);
    colors.push(Color::Yellow);
    colors.push(Color::Purple);
    colors.push(Color::White);
    colors.push(Color::Orange);
    colors.push(Color::Cyan);
    assert(colors@ =~= seq![
        Color::Red,
        Color::Blue,
        Color::Black,
        Color::Green,
        Color::Yellow,
        Color::Purple,
        Color::White,
        Color::Orange,
        Color::Cyan,
    ]);
    colors
}

/// The number of White cells is between 0 and the number of cells counted.
pub proof fn lemma_white_upto_bounds(l: Seq<Seq<Color>>, p: int)
    requires
        0 <= p,
    ensures
        0 <= white_upto(l, p) <= p,
    decreases p,
{
    if p > 0 {
        lemma_white_upto_bounds(l, p - 1);
    }
}

/// Making the non-White cell with row-major index `q` White adds one to the
/// count of every stretch that reaches beyond it, and changes no other count.
pub proof fn lemma_white_upto_whitened(l: Seq<Seq<Color>>, q: int, p: int)
    requires
        is_layout(l),
        0 <= q < 25,
        0 <= p <= 25,
        flat(l, q) != Color::White,
    ensures
        white_upto(whitened(l, q / 5, q % 5), p) == white_upto(l, p) + (if p > q {
            1int
        } else {
            0int
        }),
    decreases p,
{
    if p > 0 {
        lemma_white_upto_whitened(l, q, p - 1);
        let m = whitened(l, q / 5, q % 5);
        let i = p - 1;
        if i != q {
            assert(flat(m, i) == flat(l, i));
        } else {
            assert(flat(m, i) == Color::White);
        }
    }
}

/// The number of White cells of a 5×5 layout.
pub fn count_white(rows: &[Vec<Color>]) -> (count: usize)
    requires
        is_layout(rows_view(rows@)),
    ensures
        count == white_count(rows_view(rows@)),
        count <= 25,
{
    let ghost l = rows_view(rows@);
    let mut count: usize = 0;
    let mut p: usize = 0;
    while p < 25
        invariant
            is_layout(rows_view(rows@)),
            l == rows_view(rows@),
            p <= 25,
            count == white_upto(l, p as int),
            count <= p,
        decreases 25 - p,
    {
        assert(l[p as int / 5].len() == 5);
        if rows[p / 5][p % 5] == Color::White {
            count += 1;
        }
        p += 1;
    }
    count
}

/// Makes White the cell that comes `k`-th, counted from 0, among the cells of
/// `grid` that are not White, in row-major order, and returns its position.
pub fn whiten_nth(grid: &mut Vec<Vec<Color>>, k: usize) -> (at: (usize, usize))
    requires
        is_layout(rows_view(old(grid)@)),
        k < 25 - white_count(rows_view(old(grid)@)),
    ensures
        at.0 < 5,
        at.1 < 5,
        rows_view(old(grid)@)[at.0 as int][at.1 as int] != Color::White,
        5 * at.0 + at.1 - white_upto(rows_view(old(grid)@), 5 * at.0 + at.1) == k,
        rows_view(final(grid)@) == whitened(rows_view(old(grid)@), at.0 as int, at.1 as int),
        is_layout(rows_view(final(grid)@)),
        white_count(rows_view(final(grid)@)) == white_count(rows_view(old(grid)@)) + 1,
{
    let ghost l = rows_view(grid@);
    let mut seen: usize = 0;
    let mut p: usize = 0;
    while p < 25
        invariant
            is_layout(l),
            l == rows_view(grid@),
            grid@ == old(grid)@,
            p <= 25,
            seen == p - white_upto(l, p as int),
            seen <= k,
            k < 25 - white_count(l),
        decreases 25 - p,
    {
        let i = p / 5;
        let j = p % 5;
        assert(l[i as int].len() == 5);
        proof {
            lemma_white_upto_bounds(l, p as int);
        }
        if grid[i][j] != Color::White {
            if seen == k {
                grid[i][j] = Color::White;
                proof {
                    assert(rows_view(grid@) =~~= whitened(l, i as int, j as int));
                    lemma_white_upto_whitened(l, p as int, 25);
                }
                return (i, j);
            }
            seen += 1;
        }
        p += 1;
    }
    proof {
        assert(false);
    }
    (0, 0)
}

/// Every cell of `after` is as in `before` or White.
pub open spec fn kept_or_white(before: Seq<Seq<Color>>, after: Seq<Seq<Color>>) -> bool {
    forall|r: int, c: int|
        in_bounds(r, c) ==> (#[trigger] after[r][c]) == before[r][c] || after[r][c] == Color::White
}

/// The White quota: as long as fewer than `MIN_WHITE` cells of `grid` are
/// White, a cell drawn with `rng` from those that are not White is made White.
///
/// A layout with `MIN_WHITE` White cells or more stays as it is. Any other
/// ends with exactly `MIN_WHITE` White cells, and its other cells as they were.
pub fn enforce_min_white(grid: &mut Vec<Vec<Color>>, rng: &mut ThreadRng)
    requires
        is_layout(rows_view(old(grid)@)),
    ensures
        is_layout(rows_view(final(grid)@)),
        kept_or_white(rows_view(old(grid)@), rows_view(final(grid)@)),
        white_count(rows_view(final(grid)@)) == (if white_count(rows_view(old(grid)@))
            >= MIN_WHITE {
            white_count(rows_view(old(grid)@))
        } else {
            MIN_WHITE as int
        }),
        white_count(rows_view(old(grid)@)) >= MIN_WHITE ==> rows_view(final(grid)@) == rows_view(
            old(grid)@,
        ),
{
    let ghost start = rows_view(grid@);
    let mut whites = count_white(grid.as_slice());
    while whites < MIN_WHITE
        invariant
            is_layout(start),
            is_layout(rows_view(grid@)),
            kept_or_white(start, rows_view(grid@)),
            whites == white_count(rows_view(grid@)),
            white_count(start) >= MIN_WHITE ==> rows_view(grid@) == start,
            white_count(start) < MIN_WHITE ==> whites <= MIN_WHITE,
        decreases MIN_WHITE - whites,
    {
        let ghost now = rows_view(grid@);
        let k = gen_below(rng, 25 - whites);
        whiten_nth(grid, k);
        proof {
            let next = rows_view(grid@);
            assert forall|r: int, c: int| in_bounds(r, c) implies (#[trigger] next[r][c])
                == start[r][c] || next[r][c] == Color::White by {
                assert(now[r][c] == start[r][c] || now[r][c] == Color::White);
            }
        }
        whites += 1;
    }
}

/// A random 5×5 colour layout with at least `MIN_WHITE` White cells.
///
/// Each cell is drawn from the palette. Then `enforce_min_white` brings the
/// layout to the White quota.
pub fn generate_color_grid() -> (grid: Vec<Vec<Color>>)
    ensures
        is_layout(rows_view(grid@)),
        white_count(rows_view(grid@)) >= MIN_WHITE,
{
    let mut rng = thread_rng();
    let colors = palette();
    let mut grid: Vec<Vec<Color>> = Vec::new();
    let mut i: usize = 0;
    while i < 5
        invariant
            i <= 5,
            colors@.len() == 9,
            grid@.len() == i,
            forall|r: int| 0 <= r < i ==> (#[trigger] grid@[r])@.len() == 5,
        decreases 5 - i,
    {
        let mut row: Vec<Color> = Vec::new();
        let mut j: usize = 0;
        while j < 5
            invariant
                j <= 5,
                colors@.len() == 9,
                row@.len() == j,
            decreases 5 - j,
        {
            match choose_color(&mut rng, &colors) {
                Some(color) => row.push(color),
                None => {},
            }
            j += 1;
        }
        grid.push(row);
        i += 1;
    }
    enforce_min_white(&mut grid, &mut rng);
    grid
}

} // verus!
