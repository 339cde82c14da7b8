//! The nine colours of the puzzle and colour layouts as executable values.

use crate::model::is_layout;
use vstd::prelude::*;

verus! {

/// The colour of a cell. Each colour stands for one rule on the checks around
/// the cell; see `crate::model::rule_holds`.
#[derive(Debug, Clone, Copy, PartialEq, Eq, Structural)]
pub enum Color {
    Red,
    Blue,
    Black,
    Green,
    Yellow,
    Purple,
    White,
    Orange,
    Cyan,
}

/// The colour layout that a slice of rows stands for: row `i` of the result is
/// the content of `rows[i]`.
pub open spec fn rows_view(rows: Seq<Vec<Color>>) -> Seq<Seq<Color>> {
    Seq::new(rows.len(), |i: int| rows[i]@)
}

/// Tells whether `rows` is a 5×5 colour layout.
pub fn has_board_shape(rows: &[Vec<Color>]) -> (ok: bool)
    ensures
        ok == is_layout(rows_view(rows@)),
{
    if rows.len() != 5 {
        return false;
    }
    let mut i: usize = 0;
    while i < 5
        invariant
            i <= 5,
            rows@.len() == 5,
            forall|k: int| 0 <= k < i ==> (#[trigger] rows@[k]).len() == 5,
        decreases 5 - i,
    {
        if rows[i].len() != 5 {
            return false;
        }
        i += 1;
    }
    true
}

} // verus!
