//! Where the face picker puts things on the screen: a grid of boxed
//! thumbnails, two to a row, each labelled below its box, with a hint line
//! under the grid. The program around the library draws at these places.

use vstd::prelude::*;
use crate::config::{Face, FACE_COUNT};
use crate::session::PICKER_COLS;
use crate::text::{chars_of, push_char};

verus! {

/// Columns inside a thumbnail's box.
pub const CELL_W: u16 = 30;
/// Rows inside a thumbnail's box.
pub const CELL_H: u16 = 9;
/// Columns between two boxes of a row.
pub const GAP_X: u16 = 3;
/// Blank rows between a label and the next row of boxes.
pub const GAP_Y: u16 = 1;

/// A box is its inside and a border all round.
pub open spec fn box_w() -> int {
    CELL_W + 2
}

pub open spec fn box_h() -> int {
    CELL_H + 2
}

/// Rows of boxes in the grid.
pub open spec fn grid_rows() -> int {
    (FACE_COUNT as int + PICKER_COLS as int - 1) / (PICKER_COLS as int)
}

/// The grid's width: its boxes and the gaps between them.
pub open spec fn grid_w() -> int {
    PICKER_COLS * box_w() + (PICKER_COLS - 1) * GAP_X
}

/// The grid's height: each row of boxes with its label row, and the gaps.
pub open spec fn grid_h() -> int {
    grid_rows() * (box_h() + 1) + (grid_rows() - 1) * GAP_Y
}

/// `avail` less `used`, or 0 when it does not fit, halved: where a span
/// `used` long starts to be centred in `avail`.
pub open spec fn centred(avail: int, used: int) -> int {
    if avail > used {
        (avail - used) / 2
    } else {
        0
    }
}

fn grid_size() -> (r: (u16, u16))
    ensures
        r.0 == grid_w(),
        r.1 == grid_h(),
        r.0 == 67,
        r.1 == 77,
{
    let rows: u16 = ((FACE_COUNT + PICKER_COLS - 1) / PICKER_COLS) as u16;
    assert(rows == 6);
    assert(grid_rows() == 6);
    let total_w: u16 = PICKER_COLS as u16 * (CELL_W + 2) + (PICKER_COLS as u16 - 1) * GAP_X;
    let total_h: u16 = rows * (CELL_H + 2 + 1) + (rows - 1) * GAP_Y;
    (total_w, total_h)
}

/// The top-left corner of the grid on a `term_w` by `term_h` screen: centred
/// across, and centred down together with the hint line below it.
pub fn grid_origin(term_w: u16, term_h: u16) -> (r: (u16, u16))
    ensures
        r.0 == centred(term_w as int, grid_w()),
        r.1 == centred(term_h as int, grid_h() + 2),
{
    let (total_w, total_h) = grid_size();
    (term_w.saturating_sub(total_w) / 2, term_h.saturating_sub(total_h + 2) / 2)
}

/// The top-left corner of face `i`'s box on a `term_w` by `term_h` screen.
pub fn box_origin(term_w: u16, term_h: u16, i: usize) -> (r: (u16, u16))
    requires
        i < FACE_COUNT,
    ensures
        r.0 == centred(term_w as int, grid_w()) + (i % PICKER_COLS) * (box_w() + GAP_X),
        r.1 == centred(term_h as int, grid_h() + 2) + (i / PICKER_COLS) * (box_h() + 1 + GAP_Y),
{
    let origin = grid_origin(term_w, term_h);
    let col = (i % PICKER_COLS) as u16;
    let row = (i / PICKER_COLS) as u16;
    (origin.0 + col * (CELL_W + 2 + GAP_X), origin.1 + row * (CELL_H + 2 + 1 + GAP_Y))
}

/// The row of the hint line: one below the grid.
pub fn hint_row(term_w: u16, term_h: u16) -> (r: u16)
    ensures
        r == centred(term_h as int, grid_h() + 2) + grid_h() + 1,
{
    let origin = grid_origin(term_w, term_h);
    let (_, total_h) = grid_size();
    origin.1 + total_h + 1
}

/// A piece of a thumbnail: the text and where it starts inside the box,
/// counted from the box's corner.
pub struct Placed {
    pub col: u16,
    pub row: u16,
    pub text: String,
}

/// The first `n` characters of `s`, or all of it when it is shorter.
pub open spec fn clipped(s: Seq<char>, n: int) -> Seq<char> {
    if s.len() > n {
        s.take(n)
    } else {
        s
    }
}

/// A thumbnail's lines inside its box: at most as many lines and as many
/// characters of each as fit the inside, the block centred down, each line
/// centred across, one cell in from the border.
pub fn place_thumbnail(lines: &Vec<String>) -> (placed: Vec<Placed>)
    ensures
        placed@.len() == (if lines@.len() < CELL_H {
            lines@.len() as int
        } else {
            CELL_H as int
        }),
        forall|i: int|
            0 <= i < placed@.len() ==> {
                let t = clipped(lines@[i]@, CELL_W as int);
                &&& (#[trigger] placed@[i]).text@ == t
                &&& placed@[i].col == 1 + centred(CELL_W as int, t.len() as int)
                &&& placed@[i].row == 1 + centred(CELL_H as int, lines@.len() as int) + i
            },
{
    let n = if lines.len() < CELL_H as usize {
        lines.len()
    } else {
        CELL_H as usize
    };
    let top_pad: usize = (CELL_H as usize).saturating_sub(lines.len()) / 2;
    let mut placed: Vec<Placed> = Vec::new();
    let mut i: usize = 0;
    while i < n
        invariant
            n == (if lines@.len() < CELL_H {
                lines@.len() as int
            } else {
                CELL_H as int
            }),
            top_pad == centred(CELL_H as int, lines@.len() as int),
            i <= n,
            placed@.len() == i,
            forall|k: int|
                0 <= k < i ==> {
                    let t = clipped(lines@[k]@, CELL_W as int);
                    &&& (#[trigger] placed@[k]).text@ == t
                    &&& placed@[k].col == 1 + centred(CELL_W as int, t.len() as int)
                    &&& placed@[k].row == 1 + centred(CELL_H as int, lines@.len() as int) + k
                },
        decreases n - i,
    {
        let cs = chars_of(lines[i].as_str());
        let m = if cs.len() > CELL_W as usize {
            CELL_W as usize
        } else {
            cs.len()
        };
        let mut text = String::new();
        let mut j: usize = 0;
        while j < m
            invariant
                m <= cs@.len(),
                j <= m,
                text@ == cs@.take(j as int),
            decreases m - j,
        {
            push_char(&mut text, cs[j]);
            assert(text@ =~= cs@.take(j + 1));
            j += 1;
        }
        assert(text@ =~= clipped(lines@[i as int]@, CELL_W as int));
        let pad = (CELL_W as usize - m) / 2;
        placed.push(Placed { col: 1 + pad as u16, row: 1 + (top_pad + i) as u16, text });
        i += 1;
    }
    placed
}

/// The label under a face's box: its name in capitals.
pub open spec fn label_text(f: Face) -> Seq<char> {
    f.spec_name().map_values(|c: char| if 'a' <= c && c <= 'z' {
        ((c as int) - 32) as char
    } else {
        c
    })
}

/// The label under face `f`'s box and the column where it starts, counted
/// from the box's corner, so that it sits centred under the box.
pub fn label(f: Face) -> (r: (String, u16))
    ensures
        r.0@ == label_text(f),
        r.1 == centred(box_w(), label_text(f).len() as int),
{
    let name = chars_of(f.name());
    let mut s = String::new();
    let mut i: usize = 0;
    while i < name.len()
        invariant
            name@ == f.spec_name(),
            i <= name@.len(),
            s@ == label_text(f).take(i as int),
        decreases name@.len() - i,
    {
        let c = name[i];
        let u = if 'a' <= c && c <= 'z' {
            upper(c)
        } else {
            c
        };
        push_char(&mut s, u);
        assert(s@ =~= label_text(f).take(i + 1));
        i += 1;
    }
    assert(label_text(f).take(name@.len() as int) =~= label_text(f));
    let pad = (CELL_W as usize + 2).saturating_sub(name.len()) / 2;
    (s, pad as u16)
}

/// The capital of a lowercase ASCII letter.
fn upper(c: char) -> (u: char)
    requires
        'a' <= c <= 'z',
    ensures
        u == ((c as int) - 32) as char,
{
    let b: u8 = (c as u32 - 32) as u8;
    b as char
}

} // verus!
