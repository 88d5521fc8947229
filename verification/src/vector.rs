//! The geometric vector font's styles, its seven-segment table, and the
//! packing of a rasterized sub-pixel grid into quadrant block characters.
//! The rasterizing of strokes itself is done in floating point and is left
//! to the program around the library.

use vstd::prelude::*;
use crate::color::Color;
use crate::render::{Line, merged, line_cells, push_cell};

verus! {

/// Which letterform set to draw with.
#[derive(Clone, Copy, Debug, PartialEq, Eq, Structural)]
pub enum Style {
    /// Curved geometric sans: bowls are real ellipses.
    Geometric,
    /// Seven-segment bars only, as on an LCD panel.
    Segment,
}

/// The seven-segment form of `c` (a..g order), for the digits and the
/// letters A, P and M (upper case only); `None` for anything else.
pub open spec fn segment_bits(c: char) -> Option<Seq<bool>> {
    if '0' <= c && c <= '9' {
        Some(crate::faces::matrix::digit_segments(c))
    } else if c == 'A' {
        Some(seq![true, true, true, false, true, true, true])
    } else if c == 'P' {
        Some(seq![true, true, false, false, true, true, true])
    } else if c == 'M' {
        Some(seq![true, true, true, false, true, true, false])
    } else {
        None
    }
}

pub fn segments(c: char) -> (r: Option<[bool; 7]>)
    ensures
        r matches Some(a) ==> segment_bits(c) == Some(a@),
        r is None ==> segment_bits(c) is None,
{
    if '0' <= c && c <= '9' {
        Some(crate::faces::matrix::segments(c))
    } else if c == 'A' {
        let a = [true, true, true, false, true, true, true];
        assert(a@ =~= seq![true, true, true, false, true, true, true]);
        Some(a)
    } else if c == 'P' {
        let a = [true, true, false, false, true, true, true];
        assert(a@ =~= seq![true, true, false, false, true, true, true]);
        Some(a)
    } else if c == 'M' {
        let a = [true, true, true, false, true, true, false];
        assert(a@ =~= seq![true, true, true, false, true, true, false]);
        Some(a)
    } else {
        None
    }
}


/// The quadrant block with the given sub-pixels lit: upper left is worth 8,
/// upper right 4, lower left 2, lower right 1.
pub open spec fn quadrant_char(key: int) -> char {
    if key == 0 {
        ' '
    } else if key == 1 {
        '\u{2597}'
    } else if key == 2 {
        '\u{2596}'
    } else if key == 3 {
        '\u{2584}'
    } else if key == 4 {
        '\u{259D}'
    } else if key == 5 {
        '\u{2590}'
    } else if key == 6 {
        '\u{259E}'
    } else if key == 7 {
        '\u{259F}'
    } else if key == 8 {
        '\u{2598}'
    } else if key == 9 {
        '\u{259A}'
    } else if key == 10 {
        '\u{258C}'
    } else if key == 11 {
        '\u{2599}'
    } else if key == 12 {
        '\u{2580}'
    } else if key == 13 {
        '\u{259C}'
    } else if key == 14 {
        '\u{259B}'
    } else {
        '\u{2588}'
    }
}

fn quadrant(key: usize) -> (c: char)
    requires
        key < 16,
    ensures
        c == quadrant_char(key as int),
{
    let table: [char; 16] = [
        ' ', '\u{2597}', '\u{2596}', '\u{2584}', '\u{259D}', '\u{2590}', '\u{259E}', '\u{259F}',
        '\u{2598}', '\u{259A}', '\u{258C}', '\u{2599}', '\u{2580}', '\u{259C}', '\u{259B}', '\u{2588}',
    ];
    table[key]
}

/// Whether sub-pixel (`iy`, `ix`) of a row-major grid `sub_cols` wide is lit;
/// sub-pixels past the grid are not.
pub open spec fn sub_lit(on: Seq<bool>, sub_cols: int, sub_rows: int, iy: int, ix: int) -> bool {
    0 <= iy < sub_rows && 0 <= ix < sub_cols && on[iy * sub_cols + ix]
}

/// The quadrant key of cell (`row`, `col`): its four sub-pixels.
pub open spec fn quad_key(on: Seq<bool>, cols: int, rows: int, row: int, col: int) -> int {
    let (sc, sr) = (2 * cols, 2 * rows);
    (if sub_lit(on, sc, sr, 2 * row, 2 * col) { 8int } else { 0int })
        + (if sub_lit(on, sc, sr, 2 * row, 2 * col + 1) { 4int } else { 0int })
        + (if sub_lit(on, sc, sr, 2 * row + 1, 2 * col) { 2int } else { 0int })
        + (if sub_lit(on, sc, sr, 2 * row + 1, 2 * col + 1) { 1int } else { 0int })
}

/// Row `row` of the packed grid: each cell's quadrant block in its column's
/// color.
pub open spec fn quad_row(on: Seq<bool>, cols: int, rows: int, colors: Seq<Color>, row: int) -> Seq<(char, Color)> {
    Seq::new(cols as nat, |col: int| (quadrant_char(quad_key(on, cols, rows, row, col)), colors[col]))
}

fn sub_at(on: &Vec<bool>, sub_cols: usize, sub_rows: usize, iy: usize, ix: usize) -> (b: bool)
    requires
        on@.len() == sub_cols * sub_rows,
    ensures
        b == sub_lit(on@, sub_cols as int, sub_rows as int, iy as int, ix as int),
{
    let n = on.len();
    if iy < sub_rows && ix < sub_cols {
        proof {
            assert(iy * sub_cols + ix < sub_cols * sub_rows) by (nonlinear_arith)
                requires iy < sub_rows, ix < sub_cols;
            assert(iy * sub_cols <= iy * sub_cols + ix);
        }
        on[iy * sub_cols + ix]
    } else {
        false
    }
}

/// Packs a grid of sub-pixels, two by two per cell (`cols` x `rows` cells,
/// the grid row-major and `2 * cols` wide), into lines of quadrant block
/// characters, column `col` in `colors[col]`. Runs of one color share a
/// span.
pub fn quadrants(on: &Vec<bool>, cols: usize, rows: usize, colors: &Vec<Color>) -> (lines: Vec<Line>)
    requires
        4 * cols * rows <= usize::MAX,
        2 * cols + 2 <= usize::MAX,
        2 * rows + 2 <= usize::MAX,
        on@.len() == 4 * cols * rows,
        colors@.len() >= cols,
    ensures
        lines@.len() == rows,
        forall|r: int|
            0 <= r < rows ==> merged((#[trigger] lines@[r])@) && line_cells(lines@[r]@) == quad_row(
                on@,
                cols as int,
                rows as int,
                colors@,
                r,
            ),
{
    let sub_cols = 2 * cols;
    let sub_rows = 2 * rows;
    assert(sub_cols * sub_rows == 4 * cols * rows) by (nonlinear_arith)
        requires sub_cols == 2 * cols, sub_rows == 2 * rows;
    let mut lines: Vec<Line> = Vec::new();
    let mut row: usize = 0;
    while row < rows
        invariant
            sub_cols == 2 * cols,
            sub_rows == 2 * rows,
            2 * cols + 2 <= usize::MAX,
            2 * rows + 2 <= usize::MAX,
            on@.len() == sub_cols * sub_rows,
            colors@.len() >= cols,
            row <= rows,
            lines@.len() == row,
            forall|q: int|
                0 <= q < row ==> merged((#[trigger] lines@[q])@) && line_cells(lines@[q]@) == quad_row(
                    on@,
                    cols as int,
                    rows as int,
                    colors@,
                    q,
                ),
        decreases rows - row,
    {
        let mut line: Line = Vec::new();
        let mut col: usize = 0;
        while col < cols
            invariant
                sub_cols == 2 * cols,
                sub_rows == 2 * rows,
                2 * cols + 2 <= usize::MAX,
                2 * rows + 2 <= usize::MAX,
                on@.len() == sub_cols * sub_rows,
                colors@.len() >= cols,
                row < rows,
                col <= cols,
                merged(line@),
                line_cells(line@) == quad_row(on@, cols as int, rows as int, colors@, row as int).take(
                    col as int,
                ),
            decreases cols - col,
        {
            let (iy, ix) = (row * 2, col * 2);
            let ul = sub_at(on, sub_cols, sub_rows, iy, ix);
            let ur = sub_at(on, sub_cols, sub_rows, iy, ix + 1);
            let ll = sub_at(on, sub_cols, sub_rows, iy + 1, ix);
            let lr = sub_at(on, sub_cols, sub_rows, iy + 1, ix + 1);
            let key: usize = (if ul { 8 } else { 0 }) + (if ur { 4 } else { 0 }) + (if ll { 2 } else { 0 }) + (if lr {
                1
            } else {
                0
            });
            let ch = quadrant(key);
            push_cell(&mut line, ch, colors[col]);
            assert(line_cells(line@) =~= quad_row(on@, cols as int, rows as int, colors@, row as int).take(
                col + 1,
            ));
            col += 1;
        }
        assert(quad_row(on@, cols as int, rows as int, colors@, row as int).take(cols as int) =~= quad_row(
            on@,
            cols as int,
            rows as int,
            colors@,
            row as int,
        ));
        lines.push(line);
        row += 1;
    }
    lines
}

} // verus!
