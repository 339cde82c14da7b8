//! The geometry and the colours of the picture of a board: where the tiles
//! stand beside the column of rule texts, and how large the picture is. The
//! drawing itself is left to the caller.

use crate::color::Color;
use vstd::prelude::*;
use vstd::string::StrSliceExecFns;

verus! {

/// The side of a tile, in pixels.
pub const CELL_SIZE: u32 = 90;

/// The height of one line of rule text.
pub const LINE_SPACING: u32 = 22;

/// The margin around the text column and around the board.
pub const MARGIN: u32 = 12;

/// The width of the column of rule texts.
pub const RULE_COLUMN_WIDTH: u32 = 310;

/// The height of the footer below text and board.
pub const FOOTER_HEIGHT: u32 = 30;

/// The most lines of rule text that a picture can hold: with more, the height
/// of the picture would not fit in an `i32`, the type in which text is placed.
pub const MAX_TEXT_LINES: u32 = 97_612_891;

/// The size of a picture and the place of the board in it.
#[derive(Debug, Clone, Copy, PartialEq, Eq, Structural)]
pub struct PictureLayout {
    pub width: u32,
    pub height: u32,
    pub grid_start_x: u32,
    pub grid_start_y: u32,
}

/// The red, green and blue parts of the colour in which a tile is painted.
pub open spec fn rgb_of(color: Color) -> (u8, u8, u8) {
    match color {
        Color::Red => (255, 50, 50),
        Color::Blue => (70, 130, 180),
        Color::Black => (40, 40, 40),
        Color::Green => (50, 205, 50),
        Color::Yellow => (255, 215, 0),
        Color::Purple => (128, 0, 128),
        Color::White => (255, 255, 255),
        Color::Orange => (255, 165, 0),
        Color::Cyan => (0, 255, 255),
    }
}

/// The height that the board takes with its margins.
pub open spec fn grid_area_height() -> int {
    5 * CELL_SIZE + 2 * MARGIN
}

/// The height that `text_lines` lines of rule text take with the margin above
/// them.
pub open spec fn text_height(text_lines: int) -> int {
    MARGIN + text_lines * LINE_SPACING
}

/// The height of a picture with `text_lines` lines of rule text: the larger of
/// text and board, and the footer.
pub open spec fn picture_height(text_lines: int) -> int {
    (if text_height(text_lines) >= grid_area_height() {
        text_height(text_lines)
    } else {
        grid_area_height()
    }) + FOOTER_HEIGHT
}

/// The number of line feeds in `text`.
pub open spec fn feeds_of(text: Seq<char>) -> int
    decreases text.len(),
{
    if text.len() == 0 {
        0
    } else {
        feeds_of(text.drop_last()) + (if text.last() == '\n' {
            1int
        } else {
            0int
        })
    }
}

/// The number of lines that the first `n` of `texts` take together, one below
/// the other: each takes one line more than it has line feeds.
pub open spec fn lines_of(texts: Seq<&str>, n: int) -> int
    decreases n,
{
    if n <= 0 {
        0
    } else {
        lines_of(texts, n - 1) + feeds_of(texts[n - 1]@) + 1
    }
}

/// The colour in which a tile of `color` is painted.
pub fn tile_rgb(color: Color) -> (rgb: (u8, u8, u8))
    ensures
        rgb == rgb_of(color),
{
    match color {
        Color::Red => (255, 50, 50),
        Color::Blue => (70, 130, 180),
        Color::Black => (40, 40, 40),
        Color::Green => (50, 205, 50),
        Color::Yellow => (255, 215, 0),
        Color::Purple => (128, 0, 128),
        Color::White => (255, 255, 255),
        Color::Orange => (255, 165, 0),
        Color::Cyan => (0, 255, 255),
    }
}

/// The number of line feeds in `text`.
pub fn line_feeds(text: &str) -> (feeds: usize)
    ensures
        feeds == feeds_of(text@),
        feeds <= text@.len(),
{
    let n = text.unicode_len();
    let mut feeds: usize = 0;
    for c in it: text.chars()
        invariant
            n == text@.len(),
            it.seq() == text@,
            feeds == feeds_of(text@.take(it.index() as int)),
            feeds <= it.index() <= n,
    {
        proof {
            let i = it.index() as int;
            assert(text@.take(i + 1).drop_last() =~= text@.take(i));
        }
        if c == '\n' {
            feeds += 1;
        }
    }
    assert(text@.take(n as int) =~= text@);
    feeds
}

/// The number of lines that `texts` take together, one below the other, or
/// `None` if they are more than `MAX_TEXT_LINES`.
pub fn count_text_lines(texts: &[&str]) -> (lines: Option<u32>)
    ensures
        match lines {
            Some(n) => n == lines_of(texts@, texts@.len() as int) && n <= MAX_TEXT_LINES,
            None => lines_of(texts@, texts@.len() as int) > MAX_TEXT_LINES,
        },
{
    let mut total: u32 = 0;
    let mut k: usize = 0;
    while k < texts.len()
        invariant
            k <= texts@.len(),
            total == lines_of(texts@, k as int),
            total <= MAX_TEXT_LINES,
        decreases texts@.len() - k,
    {
        let feeds = line_feeds(texts[k]);
        if feeds >= MAX_TEXT_LINES as usize || total + feeds as u32 + 1 > MAX_TEXT_LINES {
            proof {
                lemma_lines_grow(texts@, k + 1, texts@.len() as int);
            }
            return None;
        }
        total = total + feeds as u32 + 1;
        k += 1;
    }
    Some(total)
}

/// More texts take at least as many lines.
pub proof fn lemma_lines_grow(texts: Seq<&str>, m: int, n: int)
    requires
        0 <= m <= n,
    ensures
        lines_of(texts, m) <= lines_of(texts, n),
    decreases n - m,
{
    if m < n {
        lemma_lines_grow(texts, m, n - 1);
        lemma_feeds_nonnegative(texts[n - 1]@);
    }
}

/// A text has no fewer than zero line feeds.
pub proof fn lemma_feeds_nonnegative(text: Seq<char>)
    ensures
        feeds_of(text) >= 0,
    decreases text.len(),
{
    if text.len() > 0 {
        lemma_feeds_nonnegative(text.drop_last());
    }
}

/// The size of the picture of a board beside `text_lines` lines of rule text,
/// and the upper left corner of the board in it: the board stands to the right
/// of the text column, centred between the upper and the lower edge.
pub fn picture_layout(text_lines: u32) -> (layout: PictureLayout)
    requires
        text_lines <= MAX_TEXT_LINES,
    ensures
        layout.width == RULE_COLUMN_WIDTH + 5 * CELL_SIZE + 3 * MARGIN,
        layout.height == picture_height(text_lines as int),
        layout.grid_start_x == RULE_COLUMN_WIDTH + MARGIN,
        layout.grid_start_y == (picture_height(text_lines as int) - grid_area_height()) / 2,
        layout.wf(),
{
    let text_height = MARGIN + text_lines * LINE_SPACING;
    let grid_area_height = 5 * CELL_SIZE + MARGIN * 2;
    let width = RULE_COLUMN_WIDTH + 5 * CELL_SIZE + MARGIN * 3;
    let larger = if text_height >= grid_area_height {
        text_height
    } else {
        grid_area_height
    };
    let height = larger + FOOTER_HEIGHT;
    PictureLayout {
        width,
        height,
        grid_start_x: RULE_COLUMN_WIDTH + MARGIN,
        grid_start_y: (height - grid_area_height) / 2,
    }
}

impl PictureLayout {
    /// The board, from its start, lies within the picture, and the picture has
    /// room for the footer.
    pub open spec fn wf(&self) -> bool {
        &&& self.grid_start_x + 5 * CELL_SIZE <= self.width
        &&& self.grid_start_y + 5 * CELL_SIZE <= self.height
        &&& self.height >= FOOTER_HEIGHT
    }

    /// Tells whether the layout is well formed.
    pub fn is_well_formed(&self) -> (ok: bool)
        ensures
            ok == self.wf(),
    {
        self.grid_start_x as u64 + 5 * CELL_SIZE as u64 <= self.width as u64
            && self.grid_start_y as u64 + 5 * CELL_SIZE as u64 <= self.height as u64
            && self.height >= FOOTER_HEIGHT
    }

    /// The upper left corner of the tile in row `row`, column `column`.
    pub fn tile_origin(&self, row: usize, column: usize) -> (corner: (u32, u32))
        requires
            self.wf(),
            row < 5,
            column < 5,
        ensures
            corner.0 == self.grid_start_x + column * CELL_SIZE,
            corner.1 == self.grid_start_y + row * CELL_SIZE,
            corner.0 + CELL_SIZE <= self.width,
            corner.1 + CELL_SIZE <= self.height,
    {
        (self.grid_start_x + column as u32 * CELL_SIZE, self.grid_start_y + row as u32 * CELL_SIZE)
    }

    /// The height at which the footer text is drawn.
    pub fn footer_baseline(&self) -> (y: u32)
        requires
            self.wf(),
        ensures
            y == self.height - FOOTER_HEIGHT + 8,
    {
        self.height - FOOTER_HEIGHT + 8
    }
}

} // verus!
