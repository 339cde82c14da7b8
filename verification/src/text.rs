//! A colour layout as text, one line per row, for a log.

use crate::color::{rows_view, Color};
use vstd::prelude::*;
use vstd::string::StringExecFns;

verus! {

/// The character that stands for a colour.
pub open spec fn glyph(color: Color) -> Seq<char> {
    match color {
        Color::Red => seq!['红'],
        Color::Blue => seq!['蓝'],
        Color::Black => seq!['黑'],
        Color::Green => seq!['绿'],
        Color::Yellow => seq!['黄'],
        Color::Purple => seq!['紫'],
        Color::White => seq!['白'],
        Color::Orange => seq!['橙'],
        Color::Cyan => seq!['青'],
    }
}

/// The glyphs of a row, separated by single spaces.
pub open spec fn row_text(row: Seq<Color>) -> Seq<char>
    decreases row.len(),
{
    if row.len() == 0 {
        Seq::empty()
    } else if row.len() == 1 {
        glyph(row[0])
    } else {
        row_text(row.drop_last()) + seq![' '] + glyph(row.last())
    }
}

/// The texts of the rows, separated by line feeds.
pub open spec fn grid_text(rows: Seq<Seq<Color>>) -> Seq<char>
    decreases rows.len(),
{
    if rows.len() == 0 {
        Seq::empty()
    } else if rows.len() == 1 {
        row_text(rows[0])
    } else {
        grid_text(rows.drop_last()) + seq!['\n'] + row_text(rows.last())
    }
}

/// The character that stands for `color`, as a string.
pub fn color_glyph(color: Color) -> (text: &'static str)
    ensures
        text@ == glyph(color),
{
    proof {
        reveal_strlit("红");
        reveal_strlit("蓝");
        reveal_strlit("黑");
        reveal_strlit("绿");
        reveal_strlit("黄");
        reveal_strlit("紫");
        reveal_strlit("白");
        reveal_strlit("橙");
        reveal_strlit("青");
    }
    let text = match color {
        Color::Red => "红",
        Color::Blue => "蓝",
        Color::Black => "黑",
        Color::Green => "绿",
        Color::Yellow => "黄",
        Color::Purple => "紫",
        Color::White => "白",
        Color::Orange => "橙",
        Color::Cyan => "青",
    };
    assert(text@ =~= glyph(color));
    text
}

/// The layout as text: the glyphs of each row separated by spaces, the rows
/// separated by line feeds. The layout may have any shape.
pub fn format_grid_colors(grid: &[Vec<Color>]) -> (text: String)
    ensures
        text@ == grid_text(rows_view(grid@)),
{
    let ghost rows = rows_view(grid@);
    let mut text = String::new();
    let mut i: usize = 0;
    proof {
        reveal_strlit(" ");
        reveal_strlit("\n");
    }
    while i < grid.len()
        invariant
            rows == rows_view(grid@),
            i <= grid@.len(),
            text@ == grid_text(rows.take(i as int)),
            " "@ == seq![' '],
            "\n"@ == seq!['\n'],
        decreases grid@.len() - i,
    {
        if i > 0 {
            text.append("\n");
        }
        let ghost head = text@;
        let row = &grid[i];
        let mut j: usize = 0;
        while j < row.len()
            invariant
                j <= row@.len(),
                text@ == head + row_text(row@.take(j as int)),
                " "@ == seq![' '],
            decreases row@.len() - j,
        {
            if j > 0 {
                text.append(" ");
            }
            text.append(color_glyph(row[j]));
            proof {
                let now = row@.take(j + 1);
                assert(now.drop_last() =~= row@.take(j as int));
                assert(now.last() == row@[j as int]);
                assert(text@ =~= head + row_text(now));
            }
            j += 1;
        }
        proof {
            assert(row@.take(j as int) =~= row@);
            let now = rows.take(i + 1);
            assert(now.drop_last() =~= rows.take(i as int));
            assert(now.last() == row@);
            assert(text@ =~= grid_text(now));
        }
        i += 1;
    }
    assert(rows.take(i as int) =~= rows);
    text
}

} // verus!
