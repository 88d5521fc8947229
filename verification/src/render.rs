//! A tiny styled-text model shared by every face: a line is a list of
//! spans, each a run of text in one color. Faces build lines instead of
//! plain strings so they can color parts of the clock independently.

use vstd::prelude::*;
use crate::color::Color;
use crate::text::{chars_of, push_char, repeat_char};

verus! {

/// A run of text in one color.
#[derive(Debug)]
pub struct Span {
    pub text: String,
    pub color: Color,
}

/// One row of styled text.
pub type Line = Vec<Span>;

/// A line as characters and colors.
pub open spec fn line_view(l: Seq<Span>) -> Seq<(Seq<char>, Color)> {
    l.map_values(|s: Span| (s.text@, s.color))
}

/// The cells of a span: each character with the span's color.
pub open spec fn span_cells(s: Span) -> Seq<(char, Color)> {
    s.text@.map_values(|c: char| (c, s.color))
}

/// The cells of a line, left to right.
pub open spec fn line_cells(l: Seq<Span>) -> Seq<(char, Color)>
    decreases l.len(),
{
    if l.len() == 0 {
        Seq::empty()
    } else {
        line_cells(l.drop_last()) + span_cells(l.last())
    }
}

/// Every span holds text, and neighbouring spans differ in color: runs of
/// one color are merged into one span.
pub open spec fn merged(l: Seq<Span>) -> bool {
    &&& forall|i: int| 0 <= i < l.len() ==> (#[trigger] l[i]).text@.len() > 0
    &&& forall|i: int| 0 < i < l.len() ==> (#[trigger] l[i]).color != l[i - 1].color
}

/// The wide cat takes two terminal columns; every other character one.
pub open spec fn char_width(c: char) -> int {
    if c == '\u{1F431}' {
        2
    } else {
        1
    }
}

pub open spec fn text_width(s: Seq<char>) -> int
    decreases s.len(),
{
    if s.len() == 0 {
        0
    } else {
        text_width(s.drop_last()) + char_width(s.last())
    }
}

/// The number of terminal columns a line takes.
pub open spec fn width_of_line(l: Seq<Span>) -> int
    decreases l.len(),
{
    if l.len() == 0 {
        0
    } else {
        width_of_line(l.drop_last()) + text_width(l.last().text@)
    }
}

/// The widest line of a block, or 0 for an empty block.
pub open spec fn width_of_block(b: Seq<Line>) -> int
    decreases b.len(),
{
    if b.len() == 0 {
        0
    } else {
        let w = width_of_line(b.last()@);
        let rest = width_of_block(b.drop_last());
        if w > rest {
            w
        } else {
            rest
        }
    }
}

proof fn lemma_text_width_prefix(s: Seq<char>, k: int)
    requires
        0 <= k <= s.len(),
    ensures
        0 <= text_width(s.subrange(0, k)) <= text_width(s),
    decreases s.len() - k,
{
    if k < s.len() {
        lemma_text_width_prefix(s, k + 1);
        assert(s.subrange(0, k + 1).drop_last() == s.subrange(0, k));
        lemma_text_width_nonneg(s.subrange(0, k));
    } else {
        assert(s.subrange(0, k) == s);
        lemma_text_width_nonneg(s);
    }
}

proof fn lemma_text_width_nonneg(s: Seq<char>)
    ensures
        text_width(s) >= 0,
    decreases s.len(),
{
    if s.len() > 0 {
        lemma_text_width_nonneg(s.drop_last());
    }
}

proof fn lemma_line_width_prefix(l: Seq<Span>, k: int)
    requires
        0 <= k <= l.len(),
    ensures
        0 <= width_of_line(l.subrange(0, k)) <= width_of_line(l),
    decreases l.len() - k,
{
    if k < l.len() {
        lemma_line_width_prefix(l, k + 1);
        assert(l.subrange(0, k + 1).drop_last() == l.subrange(0, k));
        lemma_text_width_nonneg(l[k].text@);
        lemma_line_width_nonneg(l.subrange(0, k));
    } else {
        assert(l.subrange(0, k) == l);
        lemma_line_width_nonneg(l);
    }
}

proof fn lemma_line_width_nonneg(l: Seq<Span>)
    ensures
        width_of_line(l) >= 0,
    decreases l.len(),
{
    if l.len() > 0 {
        lemma_line_width_nonneg(l.drop_last());
        lemma_text_width_nonneg(l.last().text@);
    }
}

pub fn span(text: String, color: Color) -> (s: Span)
    ensures
        s.text@ == text@,
        s.color == color,
{
    Span { text, color }
}

/// A line of one span.
pub fn line(text: String, color: Color) -> (l: Line)
    ensures
        line_view(l@) == seq![(text@, color)],
{
    let l = vec![span(text, color)];
    assert(line_view(l@) =~= seq![(text@, color)]);
    l
}

/// An empty line.
pub fn blank() -> (l: Line)
    ensures
        l@.len() == 0,
{
    Vec::new()
}

fn text_columns(s: &str) -> (w: usize)
    requires
        text_width(s@) <= usize::MAX,
    ensures
        w == text_width(s@),
{
    let n = s.unicode_len();
    let mut w: usize = 0;
    let mut i: usize = 0;
    while i < n
        invariant
            n == s@.len(),
            i <= n,
            text_width(s@) <= usize::MAX,
            w == text_width(s@.subrange(0, i as int)),
        decreases n - i,
    {
        let c = s.get_char(i);
        proof {
            assert(s@.subrange(0, i + 1).drop_last() == s@.subrange(0, i as int));
            lemma_text_width_prefix(s@, i + 1);
        }
        if c == '\u{1F431}' {
            w = w + 2;
        } else {
            w = w + 1;
        }
        i += 1;
    }
    assert(s@.subrange(0, n as int) == s@);
    w
}

/// The number of terminal columns a line takes.
pub fn line_width(l: &Line) -> (w: usize)
    requires
        width_of_line(l@) <= usize::MAX,
    ensures
        w == width_of_line(l@),
{
    let n = l.len();
    let mut w: usize = 0;
    let mut i: usize = 0;
    while i < n
        invariant
            n == l@.len(),
            i <= n,
            width_of_line(l@) <= usize::MAX,
            w == width_of_line(l@.subrange(0, i as int)),
        decreases n - i,
    {
        proof {
            assert(l@.subrange(0, i + 1).drop_last() == l@.subrange(0, i as int));
            lemma_line_width_prefix(l@, i + 1);
            lemma_text_width_nonneg(l@[i as int].text@);
        }
        let t = text_columns(l[i].text.as_str());
        w = w + t;
        i += 1;
    }
    assert(l@.subrange(0, n as int) == l@);
    w
}

/// The widest line of a block, or 0 for an empty block.
pub fn block_width(lines: &Vec<Line>) -> (w: usize)
    requires
        forall|i: int| 0 <= i < lines@.len() ==> width_of_line((#[trigger] lines@[i])@) <= usize::MAX,
    ensures
        w == width_of_block(lines@),
{
    let n = lines.len();
    let mut w: usize = 0;
    let mut i: usize = 0;
    while i < n
        invariant
            n == lines@.len(),
            i <= n,
            forall|k: int| 0 <= k < lines@.len() ==> width_of_line((#[trigger] lines@[k])@) <= usize::MAX,
            w == width_of_block(lines@.subrange(0, i as int)),
        decreases n - i,
    {
        assert(lines@.subrange(0, i + 1).drop_last() == lines@.subrange(0, i as int));
        let lw = line_width(&lines[i]);
        if lw > w {
            w = lw;
        }
        i += 1;
    }
    assert(lines@.subrange(0, n as int) == lines@);
    w
}

/// Appends one character in `color` to a line, extending the last span when
/// it already has that color, so runs of one color stay one span.
pub fn push_cell(l: &mut Line, ch: char, color: Color)
    requires
        merged(old(l)@),
    ensures
        line_cells(final(l)@) == line_cells(old(l)@).push((ch, color)),
        merged(final(l)@),
{
    let n = l.len();
    if n > 0 && l[n - 1].color == color {
        let last = l.pop().unwrap();
        let ghost prefix = l@;
        let mut text = last.text;
        push_char(&mut text, ch);
        l.push(Span { text, color });
        proof {
            assert(l@.drop_last() == prefix);
            assert(old(l)@.drop_last() == prefix);
            assert(span_cells(l@.last()) == span_cells(old(l)@.last()).push((ch, color)));
            assert(line_cells(l@) == line_cells(prefix) + span_cells(l@.last()));
            assert(line_cells(old(l)@) == line_cells(prefix) + span_cells(old(l)@.last()));
            assert(forall|i: int| 0 <= i < prefix.len() ==> l@[i] == old(l)@[i]);
        }
    } else {
        let mut text = String::new();
        push_char(&mut text, ch);
        l.push(Span { text, color });
        proof {
            assert(l@.drop_last() == old(l)@);
            assert(span_cells(l@.last()) == seq![(ch, color)]);
        }
    }
}

/// A line padded to `width` columns with equal space either side, in the
/// color of its first span (or the default color when it has none); lines
/// already that wide are left alone.
pub open spec fn padded(l: Seq<Span>, width: int) -> Seq<(Seq<char>, Color)> {
    let w = width_of_line(l);
    if w >= width {
        line_view(l)
    } else {
        let left = (width - w) / 2;
        let right = width - w - left;
        let color = if l.len() > 0 {
            l[0].color
        } else {
            Color::Reset
        };
        let pre = if left > 0 {
            seq![(Seq::new(left as nat, |i: int| ' '), color)]
        } else {
            Seq::empty()
        };
        let post = if right > 0 {
            seq![(Seq::new(right as nat, |i: int| ' '), color)]
        } else {
            Seq::empty()
        };
        pre + line_view(l) + post
    }
}

fn pad_line(l: Line, width: usize) -> (r: Line)
    requires
        width_of_line(l@) <= usize::MAX,
    ensures
        line_view(r@) == padded(l@, width as int),
{
    let w = line_width(&l);
    if w >= width {
        return l;
    }
    let left = (width - w) / 2;
    let right = width - w - left;
    let color = if l.len() > 0 {
        l[0].color
    } else {
        Color::Reset
    };
    let mut out: Line = Vec::new();
    if left > 0 {
        out.push(span(repeat_char(' ', left), color));
    }
    let mut rest = l;
    out.append(&mut rest);
    if right > 0 {
        out.push(span(repeat_char(' ', right), color));
    }
    proof {
        assert(line_view(out@) =~= padded(l@, width as int));
    }
    out
}

/// Pads every line out to `width` with equal space either side, so that a
/// centered block keeps its place as its content changes width.
pub fn pad_to_width(lines: Vec<Line>, width: usize) -> (r: Vec<Line>)
    requires
        forall|i: int| 0 <= i < lines@.len() ==> width_of_line((#[trigger] lines@[i])@) <= usize::MAX,
    ensures
        r@.len() == lines@.len(),
        forall|i: int| 0 <= i < r@.len() ==> line_view((#[trigger] r@[i])@) == padded(lines@[i]@, width as int),
{
    let ghost orig = lines@;
    let mut src = lines;
    let mut rev: Vec<Line> = Vec::new();
    while src.len() > 0
        invariant
            src@.len() + rev@.len() == orig.len(),
            src@ == orig.subrange(0, src@.len() as int),
            forall|i: int| 0 <= i < orig.len() ==> width_of_line((#[trigger] orig[i])@) <= usize::MAX,
            forall|k: int| 0 <= k < rev@.len() ==> line_view((#[trigger] rev@[k])@) == padded(
                orig[orig.len() - 1 - k]@,
                width as int,
            ),
        decreases src@.len(),
    {
        let l = src.pop().unwrap();
        assert(l == orig[src@.len() as int]);
        rev.push(pad_line(l, width));
    }
    let mut out: Vec<Line> = Vec::new();
    while rev.len() > 0
        invariant
            rev@.len() + out@.len() == orig.len(),
            forall|k: int| 0 <= k < rev@.len() ==> line_view((#[trigger] rev@[k])@) == padded(
                orig[orig.len() - 1 - k]@,
                width as int,
            ),
            forall|i: int| 0 <= i < out@.len() ==> line_view((#[trigger] out@[i])@) == padded(orig[i]@, width as int),
        decreases rev@.len(),
    {
        let l = rev.pop().unwrap();
        out.push(l);
    }
    out
}


/// The character of `layer` at row `r`, column `x`; a space where the layer
/// has no such cell.
pub open spec fn cell_char(layer: Seq<String>, r: int, x: int) -> char {
    if 0 <= r < layer.len() && 0 <= x < layer[r]@.len() {
        layer[r]@[x]
    } else {
        ' '
    }
}

/// The length of row `r` of `layer`; 0 past its last row.
pub open spec fn row_len(layer: Seq<String>, r: int) -> int {
    if 0 <= r < layer.len() {
        layer[r]@.len() as int
    } else {
        0
    }
}

/// The first layer from `k` on that is not blank at (`r`, `x`); the last
/// layer when all the others are.
pub open spec fn top_layer(layers: Seq<Vec<String>>, r: int, x: int, k: int) -> int
    decreases layers.len() - k,
{
    if k + 1 >= layers.len() {
        k
    } else if cell_char(layers[k]@, r, x) != ' ' {
        k
    } else {
        top_layer(layers, r, x, k + 1)
    }
}

/// A cell of stacked layers: the character of the topmost layer that is not
/// blank there, in that layer's color for the column; where every layer
/// above the last is blank, the last layer's character and color.
pub open spec fn layered_cell(layers: Seq<Vec<String>>, palettes: Seq<Vec<Color>>, r: int, x: int) -> (char, Color) {
    let k = top_layer(layers, r, x, 0);
    (cell_char(layers[k]@, r, x), palettes[k]@[x])
}

/// Stacks layers of text, the first on top, into `rows` lines of `width`
/// cells: each cell shows the first layer that is not blank there, in that
/// layer's color for its column (`palettes[k][x]`), and the last layer
/// shows through wherever all the others are blank. Runs of one color
/// share a span.
pub fn layered(layers: &Vec<Vec<String>>, palettes: &Vec<Vec<Color>>, rows: usize, width: usize) -> (lines: Vec<Line>)
    requires
        layers@.len() >= 1,
        palettes@.len() == layers@.len(),
        forall|k: int| 0 <= k < palettes@.len() ==> (#[trigger] palettes@[k])@.len() >= width,
    ensures
        lines@.len() == rows,
        forall|r: int|
            0 <= r < rows ==> merged((#[trigger] lines@[r])@) && line_cells(lines@[r]@) == Seq::new(
                width as nat,
                |x: int| layered_cell(layers@, palettes@, r, x),
            ),
{
    let n = layers.len();
    let mut lines: Vec<Line> = Vec::new();
    let mut r: usize = 0;
    while r < rows
        invariant
            n == layers@.len(),
            n >= 1,
            palettes@.len() == n,
            forall|k: int| 0 <= k < n ==> (#[trigger] palettes@[k])@.len() >= width,
            r <= rows,
            lines@.len() == r,
            forall|q: int|
                0 <= q < r ==> merged((#[trigger] lines@[q])@) && line_cells(lines@[q]@) == Seq::new(
                    width as nat,
                    |x: int| layered_cell(layers@, palettes@, q, x),
                ),
        decreases rows - r,
    {
        let mut cur: Vec<Vec<char>> = Vec::new();
        let mut k: usize = 0;
        while k < n
            invariant
                n == layers@.len(),
                k <= n,
                cur@.len() == k,
                forall|j: int| 0 <= j < k ==> (#[trigger] cur@[j])@.len() == row_len(layers@[j]@, r as int),
                forall|j: int, y: int|
                    0 <= j < k && 0 <= y < cur@[j]@.len() ==> #[trigger] cur@[j]@[y] == cell_char(
                        layers@[j]@,
                        r as int,
                        y,
                    ),
            decreases n - k,
        {
            if r < layers[k].len() {
                let row = chars_of(layers[k][r].as_str());
                cur.push(row);
            } else {
                cur.push(Vec::new());
            }
            k += 1;
        }
        let mut l: Line = Vec::new();
        let mut x: usize = 0;
        while x < width
            invariant
                n == layers@.len(),
                n >= 1,
                palettes@.len() == n,
                forall|k: int| 0 <= k < n ==> (#[trigger] palettes@[k])@.len() >= width,
                cur@.len() == n,
                forall|j: int| 0 <= j < n ==> (#[trigger] cur@[j])@.len() == row_len(layers@[j]@, r as int),
                forall|j: int, y: int|
                    0 <= j < n && 0 <= y < cur@[j]@.len() ==> #[trigger] cur@[j]@[y] == cell_char(
                        layers@[j]@,
                        r as int,
                        y,
                    ),
                x <= width,
                merged(l@),
                line_cells(l@) == Seq::new(x as nat, |y: int| layered_cell(layers@, palettes@, r as int, y)),
            decreases width - x,
        {
            let mut k: usize = 0;
            let mut ch: char = ' ';
            loop
                invariant
                    n == layers@.len(),
                    n >= 1,
                    k < n,
                    cur@.len() == n,
                    forall|j: int| 0 <= j < n ==> (#[trigger] cur@[j])@.len() == row_len(layers@[j]@, r as int),
                    forall|j: int, y: int|
                        0 <= j < n && 0 <= y < cur@[j]@.len() ==> #[trigger] cur@[j]@[y] == cell_char(
                            layers@[j]@,
                            r as int,
                            y,
                        ),
                    top_layer(layers@, r as int, x as int, 0) == top_layer(layers@, r as int, x as int, k as int),
                ensures
                    k < n,
                    top_layer(layers@, r as int, x as int, 0) == k,
                    ch == cell_char(layers@[k as int]@, r as int, x as int),
                decreases n - k,
            {
                proof {
                    assert(cur@[k as int]@.len() == row_len(layers@[k as int]@, r as int));
                }
                let c = if x < cur[k].len() {
                    cur[k][x]
                } else {
                    ' '
                };
                if k + 1 >= n || c != ' ' {
                    ch = c;
                    break;
                }
                k += 1;
            }
            let color = palettes[k][x];
            push_cell(&mut l, ch, color);
            proof {
                assert(line_cells(l@) =~= Seq::new((x + 1) as nat, |y: int| layered_cell(layers@, palettes@, r as int, y)));
            }
            x += 1;
        }
        lines.push(l);
        r += 1;
    }
    lines
}

/// The characters of a line, its spans' text run together.
pub open spec fn line_chars(l: Seq<Span>) -> Seq<char> {
    line_cells(l).map_values(|p: (char, Color)| p.0)
}

/// The text of a line without its colors.
pub fn plain_text(l: &Line) -> (s: String)
    ensures
        s@ == line_chars(l@),
{
    let mut s = String::new();
    let mut i: usize = 0;
    while i < l.len()
        invariant
            i <= l@.len(),
            s@ == line_chars(l@.subrange(0, i as int)),
        decreases l@.len() - i,
    {
        proof {
            let pre = l@.subrange(0, i as int);
            let nxt = l@.subrange(0, i + 1);
            assert(nxt.drop_last() == pre);
            assert(line_cells(nxt) == line_cells(pre) + span_cells(l@[i as int]));
            assert(line_chars(nxt) =~= line_chars(pre) + l@[i as int].text@);
        }
        s.append(l[i].text.as_str());
        i += 1;
    }
    assert(l@.subrange(0, l@.len() as int) == l@);
    s
}


/// The columns a line takes, from its characters and colors.
pub open spec fn view_width(v: Seq<(Seq<char>, Color)>) -> int
    decreases v.len(),
{
    if v.len() == 0 {
        0
    } else {
        view_width(v.drop_last()) + text_width(v.last().0)
    }
}

pub(crate) proof fn lemma_view_width_of_line(l: Seq<Span>)
    ensures
        view_width(line_view(l)) == width_of_line(l),
    decreases l.len(),
{
    if l.len() > 0 {
        assert(line_view(l).drop_last() =~= line_view(l.drop_last()));
        lemma_view_width_of_line(l.drop_last());
    }
}

pub(crate) proof fn lemma_view_width_concat(a: Seq<(Seq<char>, Color)>, b: Seq<(Seq<char>, Color)>)
    ensures
        view_width(a + b) == view_width(a) + view_width(b),
    decreases b.len(),
{
    if b.len() > 0 {
        assert((a + b).drop_last() =~= a + b.drop_last());
        lemma_view_width_concat(a, b.drop_last());
    } else {
        assert(a + b =~= a);
    }
}

pub(crate) proof fn lemma_spaces_width(n: nat)
    ensures
        text_width(Seq::new(n, |i: int| ' ')) == n,
    decreases n,
{
    if n > 0 {
        assert(Seq::new(n, |i: int| ' ').drop_last() =~= Seq::new((n - 1) as nat, |i: int| ' '));
        lemma_spaces_width((n - 1) as nat);
    }
}

/// Padding holds a block in place: a padded line is exactly `width`
/// columns wide, or as wide as it was when it was wider already.
pub proof fn lemma_padded_width(l: Seq<Span>, width: int)
    ensures
        view_width(padded(l, width)) == (if width_of_line(l) >= width {
            width_of_line(l)
        } else {
            width
        }),
{
    lemma_view_width_of_line(l);
    let w = width_of_line(l);
    if w < width {
        let left = (width - w) / 2;
        let right = width - w - left;
        let color = if l.len() > 0 {
            l[0].color
        } else {
            Color::Reset
        };
        let pre = if left > 0 {
            seq![(Seq::new(left as nat, |i: int| ' '), color)]
        } else {
            Seq::empty()
        };
        let post = if right > 0 {
            seq![(Seq::new(right as nat, |i: int| ' '), color)]
        } else {
            Seq::empty()
        };
        lemma_spaces_width(left as nat);
        lemma_spaces_width(right as nat);
        if left > 0 {
            assert(pre.drop_last() =~= Seq::<(Seq<char>, Color)>::empty());
            assert(view_width(pre) == view_width(pre.drop_last()) + text_width(pre.last().0));
        }
        assert(view_width(pre) == left);
        if right > 0 {
            assert(post.drop_last() =~= Seq::<(Seq<char>, Color)>::empty());
            assert(view_width(post) == view_width(post.drop_last()) + text_width(post.last().0));
        }
        assert(view_width(post) == right);
        lemma_view_width_concat(pre, line_view(l));
        lemma_view_width_concat(pre + line_view(l), post);
        assert(padded(l, width) == pre + line_view(l) + post);
    }
}


/// Text without the wide cat takes one column a character.
pub(crate) proof fn lemma_narrow_width(s: Seq<char>)
    requires
        forall|i: int| 0 <= i < s.len() ==> s[i] != '\u{1F431}',
    ensures
        text_width(s) == s.len(),
    decreases s.len(),
{
    if s.len() > 0 {
        lemma_narrow_width(s.drop_last());
    }
}

/// The width of a line of one span.
pub(crate) proof fn lemma_single_width(t: Seq<char>, c: Color)
    ensures
        view_width(seq![(t, c)]) == text_width(t),
{
    let v = seq![(t, c)];
    assert(v.drop_last() =~= Seq::<(Seq<char>, Color)>::empty());
    assert(view_width(v.drop_last()) == 0);
    assert(v.last() == (t, c));
    assert(view_width(v) == view_width(v.drop_last()) + text_width(v.last().0));
}


/// Colors plain text lines by column: character `i` of every line in
/// `palette[i]`, so a gradient palette fades a block across its width. Runs
/// of one color share a span.
pub fn colored(lines: &Vec<String>, palette: &Vec<Color>) -> (out: Vec<Line>)
    requires
        forall|r: int| 0 <= r < lines@.len() ==> (#[trigger] lines@[r])@.len() <= palette@.len(),
    ensures
        out@.len() == lines@.len(),
        forall|r: int|
            0 <= r < lines@.len() ==> merged((#[trigger] out@[r])@) && line_cells(out@[r]@) == Seq::new(
                lines@[r]@.len(),
                |i: int| (lines@[r]@[i], palette@[i]),
            ),
{
    let mut out: Vec<Line> = Vec::new();
    let mut r: usize = 0;
    while r < lines.len()
        invariant
            r <= lines@.len(),
            out@.len() == r,
            forall|q: int| 0 <= q < lines@.len() ==> (#[trigger] lines@[q])@.len() <= palette@.len(),
            forall|q: int|
                0 <= q < r ==> merged((#[trigger] out@[q])@) && line_cells(out@[q]@) == Seq::new(
                    lines@[q]@.len(),
                    |i: int| (lines@[q]@[i], palette@[i]),
                ),
        decreases lines@.len() - r,
    {
        let cs = chars_of(lines[r].as_str());
        let mut l: Line = Vec::new();
        let mut i: usize = 0;
        while i < cs.len()
            invariant
                cs@ == lines@[r as int]@,
                cs@.len() <= palette@.len(),
                i <= cs@.len(),
                merged(l@),
                line_cells(l@) == Seq::new(i as nat, |k: int| (cs@[k], palette@[k])),
            decreases cs@.len() - i,
        {
            push_cell(&mut l, cs[i], palette[i]);
            assert(line_cells(l@) =~= Seq::new((i + 1) as nat, |k: int| (cs@[k], palette@[k])));
            i += 1;
        }
        out.push(l);
        r += 1;
    }
    out
}


/// Where a block `used` long starts when centred in `avail`: half the room
/// left over, or 0 when there is none.
pub fn centred(avail: usize, used: usize) -> (start: usize)
    ensures
        start == (if avail > used {
            (avail - used) / 2
        } else {
            0
        }),
{
    avail.saturating_sub(used) / 2
}

} // verus!
