//! A tiny sub-pixel canvas that renders to Unicode braille characters.
//!
//! Each terminal cell holds a 2x4 grid of on/off dots (the braille
//! standard), which gives double the horizontal and quadruple the vertical
//! resolution of plain characters.

use vstd::prelude::*;
use crate::text::push_char;

verus! {

/// The braille bit of the dot at column `sub_x` (0-1) and row `sub_y` (0-3)
/// of a cell.
pub open spec fn dot_bit(sub_x: int, sub_y: int) -> u8 {
    if sub_y == 0 {
        if sub_x == 0 { 0x01 } else { 0x08 }
    } else if sub_y == 1 {
        if sub_x == 0 { 0x02 } else { 0x10 }
    } else if sub_y == 2 {
        if sub_x == 0 { 0x04 } else { 0x20 }
    } else {
        if sub_x == 0 { 0x40 } else { 0x80 }
    }
}

/// The character of a cell: blank when no dot is set, else the braille
/// pattern with those dots.
pub open spec fn braille_char(bits: u8) -> char {
    if bits == 0 {
        ' '
    } else {
        (0x2800 + bits as int) as char
    }
}

/// Calls `char::from_u32`: `Some` of the character for a Unicode scalar
/// value, `None` for a surrogate or a value past `0x10FFFF`.
#[verifier::external_body]
fn char_from_u32(v: u32) -> (r: Option<char>)
    ensures
        (v < 0xD800 || (0xE000 <= v && v <= 0x10FFFF)) ==> r == Some(v as char),
        !(v < 0xD800 || (0xE000 <= v && v <= 0x10FFFF)) ==> r is None,
{
    char::from_u32(v)
}

/// The character for a cell with dots `bits`.
pub fn cell_char(bits: u8) -> (c: char)
    ensures
        c == braille_char(bits),
{
    if bits == 0 {
        ' '
    } else {
        match char_from_u32(0x2800 + bits as u32) {
            Some(ch) => ch,
            None => ' ',
        }
    }
}

/// A canvas of `cols` by `rows` terminal cells.
pub struct Canvas {
    /// Size in terminal cells.
    pub cols: usize,
    pub rows: usize,
    /// Size in sub-pixel dots.
    px_w: usize,
    px_h: usize,
    bits: Vec<u8>,
}

impl Canvas {
    /// Width in terminal cells.
    pub closed spec fn spec_cols(&self) -> int {
        self.cols as int
    }

    /// Height in terminal cells.
    pub closed spec fn spec_rows(&self) -> int {
        self.rows as int
    }

    /// The dots of each cell, row by row.
    pub closed spec fn cells(&self) -> Seq<u8> {
        self.bits@
    }

    /// The canvas's shape holds together: one cell of dots per terminal
    /// cell, two dots across and four down in each.
    pub closed spec fn wf(&self) -> bool {
        &&& self.bits@.len() == self.cols * self.rows
        &&& self.cols * self.rows <= usize::MAX
        &&& self.px_w == 2 * self.cols
        &&& self.px_h == 4 * self.rows
    }

    /// The cells after setting dot `(x, y)`: dots off the canvas are dropped.
    pub open spec fn plotted(cells: Seq<u8>, cols: int, rows: int, x: int, y: int) -> Seq<u8> {
        if 0 <= x < 2 * cols && 0 <= y < 4 * rows {
            let idx = (y / 4) * cols + x / 2;
            cells.update(idx, cells[idx] | dot_bit(x % 2, y % 4))
        } else {
            cells
        }
    }

    /// A blank canvas of `cols` by `rows` cells.
    pub fn new(cols: usize, rows: usize) -> (c: Canvas)
        requires
            cols * rows <= usize::MAX,
            2 * cols <= usize::MAX,
            4 * rows <= usize::MAX,
        ensures
            c.wf(),
            c.spec_cols() == cols,
            c.spec_rows() == rows,
            c.cells() == Seq::new((cols * rows) as nat, |i: int| 0u8),
    {
        let bits = vec![0u8; cols * rows];
        let c = Canvas { cols, rows, px_w: cols * 2, px_h: rows * 4, bits };
        assert(c.cells() =~= Seq::new((cols * rows) as nat, |i: int| 0u8));
        c
    }

    /// Width in dots.
    pub fn px_width(&self) -> (w: usize)
        requires
            self.wf(),
        ensures
            w == 2 * self.spec_cols(),
    {
        self.px_w
    }

    /// Height in dots.
    pub fn px_height(&self) -> (h: usize)
        requires
            self.wf(),
        ensures
            h == 4 * self.spec_rows(),
    {
        self.px_h
    }

    /// Sets the dot at `(x, y)` if it is on the canvas; dots off the canvas
    /// are silently dropped, so callers need not clip circles and lines.
    pub fn plot(&mut self, x: isize, y: isize)
        requires
            old(self).wf(),
        ensures
            final(self).wf(),
            final(self).spec_cols() == old(self).spec_cols(),
            final(self).spec_rows() == old(self).spec_rows(),
            final(self).cells() == Canvas::plotted(
                old(self).cells(),
                old(self).spec_cols(),
                old(self).spec_rows(),
                x as int,
                y as int,
            ),
    {
        if x < 0 || y < 0 || x as usize >= self.px_w || y as usize >= self.px_h {
            return;
        }
        let (x, y) = (x as usize, y as usize);
        let (cell_x, sub_x) = (x / 2, x % 2);
        let (cell_y, sub_y) = (y / 4, y % 4);
        proof {
            assert(cell_y * self.cols + cell_x < self.cols * self.rows) by (nonlinear_arith)
                requires cell_y < self.rows, cell_x < self.cols;
        }
        let idx = cell_y * self.cols + cell_x;
        let bit: u8 = if sub_y == 0 {
            if sub_x == 0 { 0x01 } else { 0x08 }
        } else if sub_y == 1 {
            if sub_x == 0 { 0x02 } else { 0x10 }
        } else if sub_y == 2 {
            if sub_x == 0 { 0x04 } else { 0x20 }
        } else {
            if sub_x == 0 { 0x40 } else { 0x80 }
        };
        let v = self.bits[idx] | bit;
        self.bits.set(idx, v);
    }

    /// Renders to text lines, one per row of cells.
    pub fn lines(&self) -> (out: Vec<String>)
        requires
            self.wf(),
        ensures
            out@.len() == self.spec_rows(),
            forall|r: int|
                0 <= r < self.spec_rows() ==> (#[trigger] out@[r])@ == Seq::new(
                    self.spec_cols() as nat,
                    |c: int| braille_char(self.cells()[r * self.spec_cols() + c]),
                ),
    {
        let mut out: Vec<String> = Vec::new();
        let mut r: usize = 0;
        while r < self.rows
            invariant
                self.wf(),
                r <= self.rows,
                out@.len() == r,
                forall|rr: int|
                    0 <= rr < r ==> (#[trigger] out@[rr])@ == Seq::new(
                        self.cols as nat,
                        |c: int| braille_char(self.cells()[rr * self.cols + c]),
                    ),
            decreases self.rows - r,
        {
            let mut line = String::new();
            let mut c: usize = 0;
            while c < self.cols
                invariant
                    self.wf(),
                    r < self.rows,
                    c <= self.cols,
                    line@ == Seq::new(c as nat, |cc: int| braille_char(self.cells()[r * self.cols + cc])),
                decreases self.cols - c,
            {
                proof {
                    assert(r * self.cols + c < self.cols * self.rows) by (nonlinear_arith)
                        requires r < self.rows, c < self.cols;
                }
                let bits = self.bits[r * self.cols + c];
                let ch = if bits == 0 {
                    ' '
                } else {
                    match char_from_u32(0x2800 + bits as u32) {
                        Some(ch) => ch,
                        None => ' ',
                    }
                };
                push_char(&mut line, ch);
                assert(line@ =~= Seq::new((c + 1) as nat, |cc: int| braille_char(self.cells()[r * self.cols + cc])));
                c += 1;
            }
            out.push(line);
            r += 1;
        }
        out
    }
}

/// Setting a dot never clears another: every dot that was set stays set.
pub proof fn lemma_plot_keeps_dots(cells: Seq<u8>, cols: int, rows: int, x: int, y: int)
    requires
        cells.len() == cols * rows,
    ensures
        Canvas::plotted(cells, cols, rows, x, y).len() == cells.len(),
        forall|i: int|
            0 <= i < cells.len() ==> #[trigger] Canvas::plotted(cells, cols, rows, x, y)[i] & cells[i]
                == cells[i],
{
    let p = Canvas::plotted(cells, cols, rows, x, y);
    if 0 <= x < 2 * cols && 0 <= y < 4 * rows {
        assert((y / 4) * cols + x / 2 < cols * rows) by (nonlinear_arith)
            requires 0 <= x < 2 * cols, 0 <= y < 4 * rows;
    }
    assert forall|i: int| 0 <= i < cells.len() implies #[trigger] p[i] & cells[i] == cells[i] by {
        let a = cells[i];
        if 0 <= x < 2 * cols && 0 <= y < 4 * rows && i == (y / 4) * cols + x / 2 {
            let b = dot_bit(x % 2, y % 4);
            assert((a | b) & a == a) by (bit_vector);
        } else {
            assert(a & a == a) by (bit_vector);
        }
    }
}

/// Setting the same dot twice is the same as setting it once.
pub proof fn lemma_plot_idempotent(cells: Seq<u8>, cols: int, rows: int, x: int, y: int)
    requires
        cells.len() == cols * rows,
    ensures
        Canvas::plotted(Canvas::plotted(cells, cols, rows, x, y), cols, rows, x, y) == Canvas::plotted(
            cells,
            cols,
            rows,
            x,
            y,
        ),
{
    if 0 <= x < 2 * cols && 0 <= y < 4 * rows {
        let idx = (y / 4) * cols + x / 2;
        assert((y / 4) * cols + x / 2 < cols * rows) by (nonlinear_arith)
            requires 0 <= x < 2 * cols, 0 <= y < 4 * rows;
        let a = cells[idx];
        let b = dot_bit(x % 2, y % 4);
        assert((a | b) | b == a | b) by (bit_vector);
        assert(Canvas::plotted(Canvas::plotted(cells, cols, rows, x, y), cols, rows, x, y) =~= Canvas::plotted(
            cells,
            cols,
            rows,
            x,
            y,
        ));
    }
}

/// The order in which dots are set does not matter.
pub proof fn lemma_plot_commutes(cells: Seq<u8>, cols: int, rows: int, x1: int, y1: int, x2: int, y2: int)
    requires
        cells.len() == cols * rows,
    ensures
        Canvas::plotted(Canvas::plotted(cells, cols, rows, x1, y1), cols, rows, x2, y2) == Canvas::plotted(
            Canvas::plotted(cells, cols, rows, x2, y2),
            cols,
            rows,
            x1,
            y1,
        ),
{
    let p12 = Canvas::plotted(Canvas::plotted(cells, cols, rows, x1, y1), cols, rows, x2, y2);
    let p21 = Canvas::plotted(Canvas::plotted(cells, cols, rows, x2, y2), cols, rows, x1, y1);
    let in1 = 0 <= x1 < 2 * cols && 0 <= y1 < 4 * rows;
    let in2 = 0 <= x2 < 2 * cols && 0 <= y2 < 4 * rows;
    let i1 = (y1 / 4) * cols + x1 / 2;
    let i2 = (y2 / 4) * cols + x2 / 2;
    if in1 {
        assert(i1 < cols * rows) by (nonlinear_arith)
            requires 0 <= x1 < 2 * cols, 0 <= y1 < 4 * rows, i1 == (y1 / 4) * cols + x1 / 2;
        assert(0 <= i1) by (nonlinear_arith)
            requires 0 <= x1, 0 <= y1, cols >= 0, i1 == (y1 / 4) * cols + x1 / 2;
    }
    if in2 {
        assert(i2 < cols * rows) by (nonlinear_arith)
            requires 0 <= x2 < 2 * cols, 0 <= y2 < 4 * rows, i2 == (y2 / 4) * cols + x2 / 2;
        assert(0 <= i2) by (nonlinear_arith)
            requires 0 <= x2, 0 <= y2, cols >= 0, i2 == (y2 / 4) * cols + x2 / 2;
    }
    let b1 = dot_bit(x1 % 2, y1 % 4);
    let b2 = dot_bit(x2 % 2, y2 % 4);
    assert(p12.len() == cells.len() && p21.len() == cells.len());
    assert forall|i: int| 0 <= i < p12.len() implies p12[i] == p21[i] by {
        let a = cells[i];
        assert((a | b1) | b2 == (a | b2) | b1) by (bit_vector);
    }
    assert(p12 =~= p21);
}

} // verus!
