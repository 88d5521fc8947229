//! Seven-segment digits composed directly in terminal cells.
//!
//! A seven-segment digit is already discrete: three horizontal bars and four
//! vertical ones on a small integer grid, so every cell is placed exactly
//! from integer bar thicknesses and lengths at any size.
//!
//! All measurements are multiples of a unit `u`. A terminal cell is about
//! twice as tall as it is wide, so vertical bars are twice as thick (in
//! columns) as horizontal ones (in rows).

use vstd::prelude::*;
use crate::color::Color;
use crate::render::{Line, line_cells, merged, push_cell};

verus! {

/// Horizontal bar thickness is `u` rows; vertical bar thickness `2u`
/// columns. A digit is then `8u` columns wide and `7u` rows tall.
pub fn digit_w(u: usize) -> (w: usize)
    requires
        8 * u <= usize::MAX,
    ensures
        w == 8 * u,
{
    8 * u
}

pub fn digit_h(u: usize) -> (h: usize)
    requires
        7 * u <= usize::MAX,
    ensures
        h == 7 * u,
{
    7 * u
}

/// A colon is `2u` columns wide: with cells twice as tall as wide, its
/// `2u x u` dots are square.
fn colon_w(u: usize) -> (w: usize)
    requires
        2 * u <= usize::MAX,
    ensures
        w == 2 * u,
{
    2 * u
}

/// The space between two glyphs.
fn gap(u: usize) -> (g: usize)
    ensures
        g == u,
{
    u
}

/// Width of a glyph in units of `u`: 2 for a colon, 8 for anything else.
pub open spec fn glyph_units(c: char) -> int {
    if c == ':' {
        2
    } else {
        8
    }
}

pub open spec fn advance_of(c: char, u: int) -> int {
    glyph_units(c) * u
}

fn advance(c: char, u: usize) -> (a: usize)
    requires
        advance_of(c, u as int) <= usize::MAX,
    ensures
        a == advance_of(c, u as int),
{
    if c == ':' {
        colon_w(u)
    } else {
        digit_w(u)
    }
}

/// The glyph widths of `s` in units, summed.
pub open spec fn glyphs_units(s: Seq<char>) -> int
    decreases s.len(),
{
    if s.len() == 0 {
        0
    } else {
        glyphs_units(s.drop_last()) + glyph_units(s.last())
    }
}

/// Width of `s` in units: the glyphs plus one unit between neighbours.
pub open spec fn text_units(s: Seq<char>) -> int {
    if s.len() == 0 {
        0
    } else {
        glyphs_units(s) + s.len() - 1
    }
}

/// Total width of `s` in columns at unit `u`.
pub open spec fn text_width(s: Seq<char>, u: int) -> int {
    u * text_units(s)
}

proof fn lemma_glyphs_units_bounds(s: Seq<char>)
    ensures
        2 * s.len() <= glyphs_units(s) <= 8 * s.len(),
    decreases s.len(),
{
    if s.len() > 0 {
        lemma_glyphs_units_bounds(s.drop_last());
    }
}

proof fn lemma_prefix_units(s: Seq<char>, k: int)
    requires
        0 <= k <= s.len(),
    ensures
        glyphs_units(s.subrange(0, k)) <= glyphs_units(s),
    decreases s.len() - k,
{
    if k < s.len() {
        lemma_prefix_units(s, k + 1);
        assert(s.subrange(0, k + 1).drop_last() == s.subrange(0, k));
    } else {
        assert(s.subrange(0, k) == s);
    }
}

/// Total width of `text` at unit `u`, including the gaps between glyphs.
pub fn width_of(text: &str, u: usize) -> (w: usize)
    requires
        text_width(text@, u as int) <= usize::MAX,
    ensures
        w == text_width(text@, u as int),
{
    let n = text.unicode_len();
    if n == 0 {
        return 0;
    }
    let mut sum: usize = 0;
    let mut i: usize = 0;
    while i < n
        invariant
            n == text@.len(),
            n > 0,
            i <= n,
            text_width(text@, u as int) <= usize::MAX,
            sum == u * glyphs_units(text@.subrange(0, i as int)),
        decreases n - i,
    {
        let c = text.get_char(i);
        proof {
            let p = text@.subrange(0, i + 1);
            assert(p.drop_last() == text@.subrange(0, i as int));
            lemma_prefix_units(text@, i + 1);
            lemma_glyphs_units_bounds(text@);
            assert(u * glyphs_units(p) == u * glyphs_units(text@.subrange(0, i as int)) + u * glyph_units(c))
                by (nonlinear_arith)
                requires glyphs_units(p) == glyphs_units(text@.subrange(0, i as int)) + glyph_units(c);
            assert(u * glyphs_units(p) <= u * text_units(text@)) by (nonlinear_arith)
                requires glyphs_units(p) <= text_units(text@), u >= 0;
            assert(advance_of(c, u as int) == u * glyph_units(c)) by (nonlinear_arith);
            lemma_glyphs_units_bounds(text@.subrange(0, i as int));
            assert(u * glyph_units(c) <= u * glyphs_units(p)) by (nonlinear_arith)
                requires glyphs_units(p) == glyphs_units(text@.subrange(0, i as int)) + glyph_units(c),
                    glyphs_units(text@.subrange(0, i as int)) >= 0, u >= 0;
            lemma_glyphs_units_bounds(text@.subrange(0, i as int));
        }
        sum = sum + advance(c, u);
        i += 1;
    }
    assert(text@.subrange(0, n as int) == text@);
    proof {
        assert(u * text_units(text@) == u * glyphs_units(text@) + u * (n - 1)) by (nonlinear_arith)
            requires text_units(text@) == glyphs_units(text@) + n - 1;
    }
    sum + gap(u) * (n - 1)
}

/// Whether `text` at unit `u` fits an area of `avail_w` by `avail_h` cells.
pub open spec fn fits(text: Seq<char>, u: int, avail_w: int, avail_h: int) -> bool {
    text_width(text, u) <= avail_w && 7 * u <= avail_h
}

pub open spec fn max_unit(max_u: int) -> int {
    if max_u < 1 {
        1
    } else {
        max_u
    }
}

/// The largest unit from `u` down to 2 at which `text` fits the area, else 1.
pub open spec fn best_from(text: Seq<char>, u: int, avail_w: int, avail_h: int) -> int
    decreases u,
{
    if u <= 1 {
        1
    } else if fits(text, u, avail_w, avail_h) {
        u
    } else {
        best_from(text, u - 1, avail_w, avail_h)
    }
}

/// The unit the digits are drawn at in an area: the largest up to `max_u`
/// that fits, and 1 when none does.
pub open spec fn best_unit(text: Seq<char>, avail_w: int, avail_h: int, max_u: int) -> int {
    best_from(text, max_unit(max_u), avail_w, avail_h)
}

/// The largest unit (at most `max_u`, at least 1) whose rendering of `text`
/// fits the given area; 1 when none fits.
pub fn fit_unit(text: &str, avail_w: usize, avail_h: usize, max_u: usize) -> (u: usize)
    requires
        text_width(text@, max_unit(max_u as int)) <= usize::MAX,
        7 * max_unit(max_u as int) <= usize::MAX,
    ensures
        u == best_unit(text@, avail_w as int, avail_h as int, max_u as int),
        1 <= u <= max_unit(max_u as int),
        fits(text@, u as int, avail_w as int, avail_h as int) || (u == 1 && forall|v: int|
            1 <= v <= max_unit(max_u as int) ==> !fits(text@, v, avail_w as int, avail_h as int)),
        forall|v: int|
            u < v <= max_unit(max_u as int) ==> !#[trigger] fits(text@, v, avail_w as int, avail_h as int),
{
    let top = if max_u < 1 {
        1
    } else {
        max_u
    };
    let mut u = top;
    while u >= 1
        invariant
            top == max_unit(max_u as int),
            u <= top,
            text_width(text@, top as int) <= usize::MAX,
            7 * top <= usize::MAX,
            forall|v: int| u < v <= top ==> !#[trigger] fits(text@, v, avail_w as int, avail_h as int),
            u >= 1 ==> best_unit(text@, avail_w as int, avail_h as int, max_u as int) == best_from(
                text@,
                u as int,
                avail_w as int,
                avail_h as int,
            ),
            u == 0 ==> best_unit(text@, avail_w as int, avail_h as int, max_u as int) == 1,
        decreases u,
    {
        proof {
            lemma_glyphs_units_bounds(text@);
            assert(u * text_units(text@) <= top * text_units(text@)) by (nonlinear_arith)
                requires u <= top, text_units(text@) >= 0;
        }
        if width_of(text, u) <= avail_w && digit_h(u) <= avail_h {
            return u;
        }
        u -= 1;
    }
    1
}

/// Which of the seven segments are lit, in the usual a..g order: a top,
/// b upper right, c lower right, d bottom, e lower left, f upper left,
/// g middle. Letters are read in upper case.
pub open spec fn seg_bits(c: char) -> Option<Seq<bool>> {
    let c = if 'a' <= c && c <= 'z' { ((c as u32) - 32) as char } else { c };
    if c == '0' {
        Some(seq![true, true, true, true, true, true, false])
    } else if c == '1' {
        Some(seq![false, true, true, false, false, false, false])
    } else if c == '2' {
        Some(seq![true, true, false, true, true, false, true])
    } else if c == '3' {
        Some(seq![true, true, true, true, false, false, true])
    } else if c == '4' {
        Some(seq![false, true, true, false, false, true, true])
    } else if c == '5' {
        Some(seq![true, false, true, true, false, true, true])
    } else if c == '6' {
        Some(seq![true, false, true, true, true, true, true])
    } else if c == '7' {
        Some(seq![true, true, true, false, false, false, false])
    } else if c == '8' {
        Some(seq![true, true, true, true, true, true, true])
    } else if c == '9' {
        Some(seq![true, true, true, true, false, true, true])
    } else if c == 'A' {
        Some(seq![true, true, true, false, true, true, true])
    } else if c == 'P' {
        Some(seq![true, true, false, false, true, true, true])
    } else if c == 'M' {
        Some(seq![true, true, true, false, true, true, false])
    } else {
        None
    }
}

fn upper(c: char) -> (r: char)
    ensures
        r == (if 'a' <= c && c <= 'z' { ((c as u32) - 32) as char } else { c }),
{
    if 'a' <= c && c <= 'z' {
        let b: u8 = ((c as u32) - 32) as u8;
        b as char
    } else {
        c
    }
}

fn segments(c: char) -> (r: Option<[bool; 7]>)
    ensures
        r matches Some(a) ==> seg_bits(c) == Some(a@),
        r is None ==> seg_bits(c) is None,
{
    let c = upper(c);
    let r = if c == '0' {
        Some([true, true, true, true, true, true, false])
    } else if c == '1' {
        Some([false, true, true, false, false, false, false])
    } else if c == '2' {
        Some([true, true, false, true, true, false, true])
    } else if c == '3' {
        Some([true, true, true, true, false, false, true])
    } else if c == '4' {
        Some([false, true, true, false, false, true, true])
    } else if c == '5' {
        Some([true, false, true, true, false, true, true])
    } else if c == '6' {
        Some([true, false, true, true, true, true, true])
    } else if c == '7' {
        Some([true, true, true, false, false, false, false])
    } else if c == '8' {
        Some([true, true, true, true, true, true, true])
    } else if c == '9' {
        Some([true, true, true, true, false, true, true])
    } else if c == 'A' {
        Some([true, true, true, false, true, true, true])
    } else if c == 'P' {
        Some([true, true, false, false, true, true, true])
    } else if c == 'M' {
        Some([true, true, true, false, true, true, false])
    } else {
        None
    };
    proof {
        if let Some(a) = r {
            assert(seg_bits(c) == Some(a@));
        }
    }
    r
}

/// Cell `(r, cx)` of the seven-segment bars `s` at unit `u`. Horizontal
/// bars span the full width, vertical bars the full half-height; they meet
/// flush, so corners are solid.
pub open spec fn bar_lit(s: Seq<bool>, u: int, r: int, cx: int) -> bool {
    let w = 8 * u;
    let tv = 2 * u;
    ||| s[0] && 0 <= r < u && 0 <= cx < w
    ||| s[1] && u <= r < 3 * u && w - tv <= cx < w
    ||| s[2] && 4 * u <= r < 6 * u && w - tv <= cx < w
    ||| s[3] && 6 * u <= r < 7 * u && 0 <= cx < w
    ||| s[4] && 4 * u <= r < 6 * u && 0 <= cx < tv
    ||| s[5] && u <= r < 3 * u && 0 <= cx < tv
    ||| s[6] && 3 * u <= r < 4 * u && 0 <= cx < w
}

/// The four outer corners are chamfered, counting rows double since a cell
/// is twice as tall as it is wide, once the unit is 3 or more.
pub open spec fn corner_cut(u: int, r: int, cx: int) -> bool {
    let k = u / 3;
    let h = 7 * u;
    let w = 8 * u;
    &&& k > 0
    &&& 0 <= r < h
    &&& 0 <= cx < w
    &&& {
        ||| 2 * r + cx < 2 * k
        ||| 2 * r + (w - 1 - cx) < 2 * k
        ||| 2 * (h - 1 - r) + cx < 2 * k
        ||| 2 * (h - 1 - r) + (w - 1 - cx) < 2 * k
    }
}

/// Whether cell `(r, cx)` of the glyph for `c` at unit `u` is lit. A colon
/// is two square dots at the thirds; a character without segments is blank.
pub open spec fn glyph_cell(c: char, u: int, r: int, cx: int) -> bool {
    if c == ':' {
        (2 * u <= r < 3 * u || 5 * u <= r < 6 * u) && 0 <= cx < 2 * u
    } else {
        match seg_bits(c) {
            Some(s) => bar_lit(s, u, r, cx) && !corner_cut(u, r, cx),
            None => false,
        }
    }
}

fn paint_cell(
    colon: bool,
    segs: Option<[bool; 7]>,
    u: usize,
    r: usize,
    cx: usize,
    old: bool,
    Ghost(c): Ghost<char>,
) -> (b: bool)
    requires
        colon == (c == ':'),
        colon || (segs matches Some(a) ==> seg_bits(c) == Some(a@)),
        colon || (segs is None ==> seg_bits(c) is None),
        1 <= u,
        32 * u <= usize::MAX,
        r < 7 * u,
        cx < 8 * u,
    ensures
        b == painted(c, u as int, r as int, cx as int, old),
{
    if colon {
        return old || ((2 * u <= r && r < 3 * u || 5 * u <= r && r < 6 * u) && cx < 2 * u);
    }
    match segs {
        None => old,
        Some(s) => {
            let w = 8 * u;
            let tv = 2 * u;
            let lit = (s[0] && r < u) || (s[1] && u <= r && r < 3 * u && w - tv <= cx) || (s[2] && 4 * u
                <= r && r < 6 * u && w - tv <= cx) || (s[3] && 6 * u <= r) || (s[4] && 4 * u <= r && r
                < 6 * u && cx < tv) || (s[5] && u <= r && r < 3 * u && cx < tv) || (s[6] && 3 * u <= r
                && r < 4 * u);
            let k = u / 3;
            let h = 7 * u;
            let rt = r;
            let rb = h - 1 - r;
            let cl = cx;
            let cr = w - 1 - cx;
            let cut = k > 0 && (2 * rt + cl < 2 * k || 2 * rt + cr < 2 * k || 2 * rb + cl < 2 * k || 2 * rb
                + cr < 2 * k);
            if cut {
                false
            } else {
                old || lit
            }
        },
    }
}

/// What painting glyph `c` at unit `u` leaves in its cell `(r, cx)` that
/// held `old`: a colon's dots and a digit's bars are set and nothing else is
/// cleared, except that a digit's chamfered corners are cleared; a character
/// without segments leaves the cell alone.
pub open spec fn painted(c: char, u: int, r: int, cx: int, old: bool) -> bool {
    if c == ':' {
        old || glyph_cell(c, u, r, cx)
    } else {
        match seg_bits(c) {
            Some(s) => if corner_cut(u, r, cx) {
                false
            } else {
                old || bar_lit(s, u, r, cx)
            },
            None => old,
        }
    }
}

proof fn lemma_painted_blank(c: char, u: int, r: int, cx: int)
    ensures
        painted(c, u, r, cx, false) == glyph_cell(c, u, r, cx),
{
}

/// Paints the glyph for `c` into `grid` (row-major, `stride` wide) in the
/// columns `x0 .. x0 + advance` of its first `7 * u` rows, dropping the
/// columns past `stride`; every other cell is left as it was.
fn draw_glyph(grid: &mut Vec<bool>, stride: usize, x0: usize, c: char, u: usize)
    requires
        1 <= u,
        32 * u <= usize::MAX,
        x0 + 8 * u <= usize::MAX,
        old(grid)@.len() >= stride * (7 * u),
    ensures
        final(grid)@.len() == old(grid)@.len(),
        forall|r: int, col: int|
            0 <= r < 7 * u && 0 <= col < stride ==> #[trigger] cell(final(grid)@, stride as int, r, col) == if x0
                <= col < x0 + advance_of(c, u as int) {
                painted(c, u as int, r, col - x0, cell(old(grid)@, stride as int, r, col))
            } else {
                cell(old(grid)@, stride as int, r, col)
            },
        forall|i: int| stride * (7 * u) <= i < old(grid)@.len() ==> #[trigger] final(grid)@[i] == old(grid)@[i],
{
    let glen = grid.len();
    let colon = c == ':';
    let segs = segments(c);
    let adv = advance(c, u);
    let h = 7 * u;
    let mut r: usize = 0;
    while r < h
        invariant
            1 <= u,
            32 * u <= usize::MAX,
            x0 + 8 * u <= usize::MAX,
            h == 7 * u,
            adv == advance_of(c, u as int),
            adv <= 8 * u,
            colon == (c == ':'),
            colon || (segs matches Some(a) ==> seg_bits(c) == Some(a@)),
            colon || (segs is None ==> seg_bits(c) is None),
            r <= h,
            grid@.len() == old(grid)@.len(),
            glen == grid@.len(),
            glen >= stride * h,
            forall|rr: int, col: int|
                0 <= rr < h && 0 <= col < stride ==> #[trigger] cell(grid@, stride as int, rr, col) == if rr < r
                    && x0 <= col < x0 + adv {
                    painted(c, u as int, rr, col - x0, cell(old(grid)@, stride as int, rr, col))
                } else {
                    cell(old(grid)@, stride as int, rr, col)
                },
            forall|i: int| stride * h <= i < glen ==> #[trigger] grid@[i] == old(grid)@[i],
        decreases h - r,
    {
        let mut cx: usize = 0;
        while cx < adv
            invariant
                1 <= u,
                32 * u <= usize::MAX,
                x0 + 8 * u <= usize::MAX,
                h == 7 * u,
                adv == advance_of(c, u as int),
                adv <= 8 * u,
                colon == (c == ':'),
                colon || (segs matches Some(a) ==> seg_bits(c) == Some(a@)),
                colon || (segs is None ==> seg_bits(c) is None),
                r < h,
                cx <= adv,
                grid@.len() == old(grid)@.len(),
                glen == grid@.len(),
                glen >= stride * h,
                forall|rr: int, col: int|
                    0 <= rr < h && 0 <= col < stride ==> #[trigger] cell(grid@, stride as int, rr, col) == if (rr
                        < r || (rr == r && col < x0 + cx)) && x0 <= col < x0 + adv {
                        painted(c, u as int, rr, col - x0, cell(old(grid)@, stride as int, rr, col))
                    } else {
                        cell(old(grid)@, stride as int, rr, col)
                    },
                forall|i: int| stride * h <= i < glen ==> #[trigger] grid@[i] == old(grid)@[i],
            decreases adv - cx,
        {
            let col = x0 + cx;
            if col < stride {
                proof {
                    assert(r * stride + col < stride * h) by (nonlinear_arith)
                        requires r < h, col < stride;
                }
                let idx = r * stride + col;
                let ghost prev = grid@;
                let before = grid[idx];
                assert(before == cell(grid@, stride as int, r as int, col as int));
                assert(before == cell(old(grid)@, stride as int, r as int, col as int));
                let v = paint_cell(colon, segs, u, r, cx, before, Ghost(c));
                grid.set(idx, v);
                proof {
                    assert forall|rr: int, cc: int| 0 <= rr < h && 0 <= cc < stride implies #[trigger] cell(
                        grid@,
                        stride as int,
                        rr,
                        cc,
                    ) == if (rr < r || (rr == r && cc < x0 + cx + 1)) && x0 <= cc < x0 + adv {
                        painted(c, u as int, rr, cc - x0, cell(old(grid)@, stride as int, rr, cc))
                    } else {
                        cell(old(grid)@, stride as int, rr, cc)
                    } by {
                        lemma_index_distinct(rr, cc, r as int, col as int, stride as int);
                        assert(rr * stride + cc < stride * h) by (nonlinear_arith)
                            requires 0 <= rr < h, 0 <= cc < stride;
                        if rr == r && cc == col {
                            assert(cell(grid@, stride as int, rr, cc) == v);
                        } else {
                            assert(cell(grid@, stride as int, rr, cc) == cell(prev, stride as int, rr, cc));
                        }
                        assert(cell(prev, stride as int, rr, cc) == if (rr < r || (rr == r && cc < x0 + cx)) && x0
                            <= cc < x0 + adv {
                            painted(c, u as int, rr, cc - x0, cell(old(grid)@, stride as int, rr, cc))
                        } else {
                            cell(old(grid)@, stride as int, rr, cc)
                        });
                    }
                    assert forall|i: int| stride * h <= i < glen implies #[trigger] grid@[i] == old(grid)@[i] by {
                        assert(prev[i] == old(grid)@[i]);
                    }
                }
            } else {
                proof {
                    assert forall|rr: int, cc: int| 0 <= rr < h && 0 <= cc < stride implies #[trigger] cell(
                        grid@,
                        stride as int,
                        rr,
                        cc,
                    ) == if (rr < r || (rr == r && cc < x0 + cx + 1)) && x0 <= cc < x0 + adv {
                        painted(c, u as int, rr, cc - x0, cell(old(grid)@, stride as int, rr, cc))
                    } else {
                        cell(old(grid)@, stride as int, rr, cc)
                    } by {
                    }
                }
            }
            cx += 1;
        }
        r += 1;
    }
}

/// Cell `(r, col)` of a row-major grid `stride` wide.
pub open spec fn cell(g: Seq<bool>, stride: int, r: int, col: int) -> bool {
    g[r * stride + col]
}

proof fn lemma_index_distinct(r1: int, c1: int, r2: int, c2: int, stride: int)
    requires
        0 <= c1 < stride,
        0 <= c2 < stride,
        0 <= r1,
        0 <= r2,
    ensures
        (r1 * stride + c1 == r2 * stride + c2) <==> (r1 == r2 && c1 == c2),
{
    if r1 < r2 {
        assert(r1 * stride + c1 < r2 * stride + c2) by (nonlinear_arith)
            requires r1 < r2, 0 <= c1 < stride, 0 <= c2;
    } else if r1 > r2 {
        assert(r1 * stride + c1 > r2 * stride + c2) by (nonlinear_arith)
            requires r1 > r2, 0 <= c2 < stride, 0 <= c1;
    }
}

/// Where glyph `i` of `s` starts: the advances and gaps of the glyphs before it.
pub open spec fn origin(s: Seq<char>, u: int, i: int) -> int
    decreases i,
{
    if i <= 0 {
        0
    } else {
        origin(s, u, i - 1) + advance_of(s[i - 1], u) + u
    }
}

pub open spec fn masked(mask: Seq<bool>, i: int) -> bool {
    0 <= i < mask.len() && mask[i]
}

/// Whether column `x` of row `r` is lit, looking at glyphs from `i` on.
pub open spec fn lit_from(s: Seq<char>, mask: Seq<bool>, u: int, r: int, x: int, i: int) -> bool
    decreases s.len() - i,
{
    if i < 0 || i >= s.len() || x < origin(s, u, i) {
        false
    } else if x < origin(s, u, i) + advance_of(s[i], u) {
        !masked(mask, i) && glyph_cell(s[i], u, r, x - origin(s, u, i))
    } else {
        lit_from(s, mask, u, r, x, i + 1)
    }
}

/// Whether cell `(r, x)` of the rendering of `s` at unit `u` is lit, with
/// the glyphs that `mask` marks left blank.
pub open spec fn pixel(s: Seq<char>, mask: Seq<bool>, u: int, r: int, x: int) -> bool {
    lit_from(s, mask, u, r, x, 0)
}

proof fn lemma_origin(s: Seq<char>, u: int, i: int)
    requires
        0 <= i <= s.len(),
        u >= 0,
    ensures
        origin(s, u, i) == u * (glyphs_units(s.subrange(0, i)) + i),
    decreases i,
{
    if i > 0 {
        lemma_origin(s, u, i - 1);
        let p = s.subrange(0, i);
        assert(p.drop_last() == s.subrange(0, i - 1));
        assert(p.last() == s[i - 1]);
        assert(glyphs_units(p) == glyphs_units(s.subrange(0, i - 1)) + glyph_units(s[i - 1]));
        let g = glyphs_units(s.subrange(0, i - 1));
        let a = glyph_units(s[i - 1]);
        assert(u * (g + i - 1) + a * u + u == u * (g + a + i)) by (nonlinear_arith);
        assert(origin(s, u, i) == origin(s, u, i - 1) + a * u + u);
    } else {
        assert(s.subrange(0, 0) =~= Seq::<char>::empty());
        assert(u * (0 + 0) == 0) by (nonlinear_arith);
    }
}

proof fn lemma_origin_mono(s: Seq<char>, u: int, j: int, i: int)
    requires
        0 <= j <= i,
        u >= 0,
    ensures
        origin(s, u, j) <= origin(s, u, i),
        j < i ==> origin(s, u, j) + advance_of(s[j], u) + u <= origin(s, u, i),
    decreases i - j,
{
    if j < i {
        lemma_origin_mono(s, u, j, i - 1);
        assert(advance_of(s[i - 1], u) >= 0) by (nonlinear_arith)
            requires u >= 0;
        if j < i - 1 {
        }
    }
}

/// Past the start of glyph `i`, the glyphs before it play no part.
proof fn lemma_lit_skip(s: Seq<char>, mask: Seq<bool>, u: int, r: int, x: int, j: int, i: int)
    requires
        0 <= j <= i <= s.len(),
        u >= 0,
        x >= origin(s, u, i),
    ensures
        lit_from(s, mask, u, r, x, j) == lit_from(s, mask, u, r, x, i),
    decreases i - j,
{
    if j < i {
        lemma_origin_mono(s, u, j, i);
        lemma_origin_mono(s, u, j + 1, i);
        lemma_lit_skip(s, mask, u, r, x, j + 1, i);
    }
}

/// A full block for a lit cell, a space for an unlit one.
pub open spec fn shade(on: bool) -> char {
    if on {
        '\u{2588}'
    } else {
        ' '
    }
}

/// The first `n` cells of row `r`: shaded by `pixel`, colored by column.
pub open spec fn row_cells(s: Seq<char>, mask: Seq<bool>, u: int, colors: Seq<Color>, r: int, n: nat) -> Seq<(char, Color)> {
    Seq::new(n, |x: int| (shade(pixel(s, mask, u, r, x)), colors[x]))
}

/// Row `r` of the grid as a line, column `cx` in `colors[cx]`.
fn render_row(
    grid: &Vec<bool>,
    w: usize,
    h: usize,
    r: usize,
    colors: &Vec<Color>,
    Ghost(s): Ghost<Seq<char>>,
    Ghost(mask): Ghost<Seq<bool>>,
    Ghost(u): Ghost<int>,
    Ghost(x): Ghost<int>,
) -> (line: Line)
    requires
        grid@.len() == w * h,
        r < h,
        x >= w,
        colors@.len() >= w,
        forall|rr: int, col: int|
            0 <= rr < h && 0 <= col < w ==> #[trigger] cell(grid@, w as int, rr, col) == (col < x && pixel(
                s,
                mask,
                u,
                rr,
                col,
            )),
    ensures
        merged(line@),
        line_cells(line@) == row_cells(s, mask, u, colors@, r as int, w as nat),
{
    let glen = grid.len();
    let mut line: Line = Vec::new();
    let mut cx: usize = 0;
    while cx < w
        invariant
            grid@.len() == w * h,
            glen == grid@.len(),
            r < h,
            x >= w,
            colors@.len() >= w,
            cx <= w,
            forall|rr: int, col: int|
                0 <= rr < h && 0 <= col < w ==> #[trigger] cell(grid@, w as int, rr, col) == (col < x
                    && pixel(s, mask, u, rr, col)),
            merged(line@),
            line_cells(line@) == row_cells(s, mask, u, colors@, r as int, cx as nat),
        decreases w - cx,
    {
        proof {
            assert(r * w + cx < w * h) by (nonlinear_arith)
                requires r < h, cx < w;
        }
        let on = grid[r * w + cx];
        assert(on == cell(grid@, w as int, r as int, cx as int));
        let ch = if on {
            '\u{2588}'
        } else {
            ' '
        };
        push_cell(&mut line, ch, colors[cx]);
        assert(line_cells(line@) =~= row_cells(s, mask, u, colors@, r as int, (cx + 1) as nat));
        cx += 1;
    }
    line
}

/// Renders `text` as seven-segment digits at unit `u` (at least 1), column
/// `cx` in `colors[cx]`. Glyphs whose index `blink_mask` marks are left
/// blank. Runs of one color are merged into one span.
pub fn render(text: &str, u: usize, blink_mask: &[bool], colors: &Vec<Color>) -> (lines: Vec<Line>)
    requires
        text_width(text@, max_unit(u as int)) * (7 * max_unit(u as int)) <= usize::MAX,
        32 * max_unit(u as int) <= usize::MAX,
        colors@.len() >= text_width(text@, max_unit(u as int)),
    ensures
        text@.len() == 0 ==> lines@.len() == 0,
        text@.len() > 0 ==> lines@.len() == 7 * max_unit(u as int),
        forall|r: int|
            0 <= r < lines@.len() ==> merged((#[trigger] lines@[r])@) && line_cells(lines@[r]@) == row_cells(
                text@,
                blink_mask@,
                max_unit(u as int),
                colors@,
                r,
                text_width(text@, max_unit(u as int)) as nat,
            ),
{
    let u = if u < 1 {
        1
    } else {
        u
    };
    let n = text.unicode_len();
    proof {
        lemma_glyphs_units_bounds(text@);
        if n > 0 {
            assert(text_width(text@, u as int) >= 2 * u) by (nonlinear_arith)
                requires text_units(text@) >= 2, u >= 1, text_width(text@, u as int) == u * text_units(text@);
            assert(text_width(text@, u as int) <= text_width(text@, u as int) * (7 * u)) by (nonlinear_arith)
                requires text_width(text@, u as int) >= 0, u >= 1;
        }
    }
    if n == 0 {
        return Vec::new();
    }
    let w = width_of(text, u);
    let h = 7 * u;
    proof {
        assert(w + u <= w * h) by (nonlinear_arith)
            requires w >= 2 * u, u >= 1, h == 7 * u;
    }
    let mut grid: Vec<bool> = vec![false; w * h];
    let mut x: usize = 0;
    let mut i: usize = 0;
    assert forall|r: int, col: int| 0 <= r < h && 0 <= col < w implies #[trigger] cell(grid@, w as int, r, col) == (col < x && pixel(
        text@,
        blink_mask@,
        u as int,
        r,
        col,
    )) by {
        assert(r * w + col < w * h) by (nonlinear_arith)
            requires 0 <= r < h, 0 <= col < w;
    }
    while i < n
        invariant
            n == text@.len(),
            n > 0,
            1 <= u,
            32 * u <= usize::MAX,
            h == 7 * u,
            w == text_width(text@, u as int),
            w + u <= w * h,
            w >= 2 * u,
            w * h <= usize::MAX,
            i <= n,
            x == origin(text@, u as int, i as int),
            x <= w + u,
            grid@.len() == w * h,
            forall|r: int, col: int|
                0 <= r < h && 0 <= col < w ==> #[trigger] cell(grid@, w as int, r, col) == (col < x && pixel(
                    text@,
                    blink_mask@,
                    u as int,
                    r,
                    col,
                )),
        decreases n - i,
    {
        let c = text.get_char(i);
        proof {
            lemma_origin(text@, u as int, i as int);
            lemma_origin(text@, u as int, (i + 1) as int);
            assert(text@[i as int] == c);
            let gi1 = glyphs_units(text@.subrange(0, i + 1));
            assert(origin(text@, u as int, i as int) + advance_of(c, u as int) == u * (gi1 + i)) by (nonlinear_arith)
                requires
                    origin(text@, u as int, (i + 1) as int) == u * (gi1 + i + 1),
                    origin(text@, u as int, (i + 1) as int) == origin(text@, u as int, i as int) + advance_of(c, u as int) + u,
            ;
            lemma_prefix_units(text@, i + 1);
            assert(text@.subrange(0, i + 1).drop_last() == text@.subrange(0, i as int));
            assert(origin(text@, u as int, i as int) + advance_of(c, u as int) <= w) by (nonlinear_arith)
                requires
                    origin(text@, u as int, i as int) + advance_of(c, u as int) == u * (glyphs_units(
                        text@.subrange(0, i + 1),
                    ) + i),
                    glyphs_units(text@.subrange(0, i + 1)) <= glyphs_units(text@),
                    i <= n - 1,
                    w == u * (glyphs_units(text@) + n - 1),
                    u >= 1,
            ;
        }
        let ghost before = grid@;
        let hide = i < blink_mask.len() && blink_mask[i];
        assert(hide == masked(blink_mask@, i as int));
        proof {
            assert(x + 8 * u <= w * h) by (nonlinear_arith)
                requires x <= w + u, w >= 2 * u, u >= 1, h == 7 * u;
        }
        if !hide {
            draw_glyph(&mut grid, w, x, c, u);
        }
        proof {
            assert forall|r: int, col: int| 0 <= r < h && 0 <= col < w implies #[trigger] cell(grid@, w as int, r, col) == (col < x
                + advance_of(c, u as int) + u && pixel(text@, blink_mask@, u as int, r, col)) by {
                assert(cell(before, w as int, r, col) == (col < x && pixel(text@, blink_mask@, u as int, r, col)));
                if col >= x {
                    lemma_lit_skip(text@, blink_mask@, u as int, r, col, 0, i as int);
                    assert(pixel(text@, blink_mask@, u as int, r, col) == lit_from(text@, blink_mask@, u as int, r, col, i as int));
                    if col >= x + advance_of(c, u as int) {
                        assert(lit_from(text@, blink_mask@, u as int, r, col, i as int) == lit_from(text@, blink_mask@, u as int, r, col, i + 1));
                        if col < x + advance_of(c, u as int) + u {
                            assert(!lit_from(text@, blink_mask@, u as int, r, col, i + 1));
                        }
                    } else {
                        assert(lit_from(text@, blink_mask@, u as int, r, col, i as int) == (!masked(blink_mask@, i as int) && glyph_cell(c, u as int, r, col - x)));
                        lemma_painted_blank(c, u as int, r, col - x);
                    }
                }
            }
        }
        x = x + advance(c, u) + gap(u);
        i += 1;
    }
    proof {
        lemma_origin(text@, u as int, n as int);
        assert(text@.subrange(0, n as int) == text@);
        assert(u * (glyphs_units(text@) + n) >= u * (glyphs_units(text@) + n - 1)) by (nonlinear_arith)
            requires u >= 1;
    }
    let mut lines: Vec<Line> = Vec::new();
    let mut r: usize = 0;
    while r < h
        invariant
            h == 7 * u,
            1 <= u,
            w == text_width(text@, u as int),
            w * h <= usize::MAX,
            grid@.len() == w * h,
            x >= w,
            colors@.len() >= w,
            r <= h,
            lines@.len() == r,
            forall|rr: int, col: int|
                0 <= rr < h && 0 <= col < w ==> #[trigger] cell(grid@, w as int, rr, col) == (col < x && pixel(
                    text@,
                    blink_mask@,
                    u as int,
                    rr,
                    col,
                )),
            forall|rr: int|
                0 <= rr < r ==> merged((#[trigger] lines@[rr])@) && line_cells(lines@[rr]@) == row_cells(
                    text@,
                    blink_mask@,
                    u as int,
                    colors@,
                    rr,
                    w as nat,
                ),
        decreases h - r,
    {
        let line = render_row(&grid, w, h, r, colors, Ghost(text@), Ghost(blink_mask@), Ghost(u as int), Ghost(x as int));
        lines.push(line);
        r += 1;
    }
    lines
}


proof fn lemma_best_from_at_most(text: Seq<char>, u: int, w: int, h: int)
    requires
        u >= 1,
    ensures
        1 <= best_from(text, u, w, h) <= u,
    decreases u,
{
    if u > 1 && !fits(text, u, w, h) {
        lemma_best_from_at_most(text, u - 1, w, h);
    }
}

proof fn lemma_best_from_grows(text: Seq<char>, u: int, w1: int, h1: int, w2: int, h2: int)
    requires
        u >= 1,
        w1 <= w2,
        h1 <= h2,
    ensures
        best_from(text, u, w1, h1) <= best_from(text, u, w2, h2),
    decreases u,
{
    lemma_best_from_at_most(text, u, w1, h1);
    if u > 1 && !fits(text, u, w2, h2) {
        lemma_best_from_grows(text, u - 1, w1, h1, w2, h2);
    }
}

/// A bigger window never draws smaller digits: the unit chosen for an area
/// is at least the one chosen for any area it contains.
pub proof fn lemma_bigger_area_bigger_unit(text: Seq<char>, w1: int, h1: int, w2: int, h2: int, max_u: int)
    requires
        w1 <= w2,
        h1 <= h2,
    ensures
        best_unit(text, w1, h1, max_u) <= best_unit(text, w2, h2, max_u),
{
    lemma_best_from_grows(text, max_unit(max_u), w1, h1, w2, h2);
}

} // verus!
