//! What the library hands to the writers of files: the record of a solution
//! list, and a board as 25 pairs of colour and check for drawing.

use crate::color::Color;
use crate::grid::Grid;
use crate::model::in_bounds;
use vstd::prelude::*;

verus! {

/// The record that is written out for a list of solutions: the boards and
/// their number.
#[derive(Debug)]
pub struct SolutionRecord {
    pub solutions: Vec<Grid>,
    pub total_solutions: usize,
}

/// The name of a colour as it is written in a record.
pub open spec fn tag_of(color: Color) -> Seq<char> {
    match color {
        Color::Red => "Red"@,
        Color::Blue => "Blue"@,
        Color::Black => "Black"@,
        Color::Green => "Green"@,
        Color::Yellow => "Yellow"@,
        Color::Purple => "Purple"@,
        Color::White => "White"@,
        Color::Orange => "Orange"@,
        Color::Cyan => "Cyan"@,
    }
}

/// The name of `color` as it is written in a record: its name in English with
/// a capital first letter.
pub fn color_tag(color: Color) -> (tag: &'static str)
    ensures
        tag@ == tag_of(color),
{
    match color {
        Color::Red => "Red",
        Color::Blue => "Blue",
        Color::Black => "Black",
        Color::Green => "Green",
        Color::Yellow => "Yellow",
        Color::Purple => "Purple",
        Color::White => "White",
        Color::Orange => "Orange",
        Color::Cyan => "Cyan",
    }
}

/// The record of `solutions`: a copy of each board, in the same order, and the
/// number of boards.
pub fn solution_record(solutions: &[Grid]) -> (record: SolutionRecord)
    ensures
        record.total_solutions == solutions@.len(),
        record.solutions@.len() == solutions@.len(),
        forall|k: int, r: int|
            0 <= k < solutions@.len() && 0 <= r < solutions@[k].0@.len() ==> (
            #[trigger] record.solutions@[k].0@[r])@ == solutions@[k].0@[r]@,
        forall|k: int|
            0 <= k < solutions@.len() ==> (#[trigger] record.solutions@[k]).0@.len()
                == solutions@[k].0@.len(),
        forall|k: int|
            0 <= k < solutions@.len() && solutions@[k].wf() ==> {
                &&& (#[trigger] record.solutions@[k]).wf()
                &&& record.solutions@[k].checks() == solutions@[k].checks()
                &&& record.solutions@[k].colors() == solutions@[k].colors()
            },
{
    let mut copies: Vec<Grid> = Vec::new();
    let mut k: usize = 0;
    while k < solutions.len()
        invariant
            k <= solutions@.len(),
            copies@.len() == k,
            forall|m: int, r: int|
                0 <= m < k && 0 <= r < solutions@[m].0@.len() ==> (#[trigger] copies@[m].0@[r])@
                    == solutions@[m].0@[r]@,
            forall|m: int| 0 <= m < k ==> (#[trigger] copies@[m]).0@.len() == solutions@[m].0@.len(),
            forall|m: int|
                0 <= m < k && solutions@[m].wf() ==> {
                    &&& (#[trigger] copies@[m]).wf()
                    &&& copies@[m].checks() == solutions@[m].checks()
                    &&& copies@[m].colors() == solutions@[m].colors()
                },
        decreases solutions@.len() - k,
    {
        let copy = solutions[k].clone();
        copies.push(copy);
        k += 1;
    }
    SolutionRecord { solutions: copies, total_solutions: solutions.len() }
}

impl Grid {
    /// The board as 25 pairs of colour and check, in row-major order, for
    /// drawing. With `show_checks` false every cell is reported unchecked, as
    /// on the blank board.
    pub fn cells_row_major(&self, show_checks: bool) -> (cells: Vec<(Color, bool)>)
        requires
            self.wf(),
        ensures
            cells@.len() == 25,
            forall|r: int, c: int|
                in_bounds(r, c) ==> (#[trigger] cells@[5 * r + c]) == (
                    self.colors()[r][c],
                    show_checks && self.checks()[r][c],
                ),
    {
        let mut cells: Vec<(Color, bool)> = Vec::new();
        let mut i: usize = 0;
        while i < 5
            invariant
                self.wf(),
                i <= 5,
                cells@.len() == 5 * i,
                forall|r: int, c: int|
                    0 <= r < i && 0 <= c < 5 ==> (#[trigger] cells@[5 * r + c]) == (
                        self.colors()[r][c],
                        show_checks && self.checks()[r][c],
                    ),
            decreases 5 - i,
        {
            let mut j: usize = 0;
            while j < 5
                invariant
                    self.wf(),
                    i < 5,
                    j <= 5,
                    cells@.len() == 5 * i + j,
                    forall|r: int, c: int|
                        0 <= r < i && 0 <= c < 5 ==> (#[trigger] cells@[5 * r + c]) == (
                            self.colors()[r][c],
                            show_checks && self.checks()[r][c],
                        ),
                    forall|c: int|
                        0 <= c < j ==> (#[trigger] cells@[5 * i + c]) == (
                            self.colors()[i as int][c],
                            show_checks && self.checks()[i as int][c],
                        ),
                decreases 5 - j,
            {
                let cell = self.0[i][j];
                cells.push((cell.color, show_checks && cell.checked));
                j += 1;
            }
            i += 1;
        }
        cells
    }
}

} // verus!
