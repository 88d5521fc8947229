//! The split-flap face: each digit sits on a card with a border and a seam
//! across its middle, and a blinking colon parts the HH / MM / SS groups.
//! Choosing the cap height and rasterizing the digits is floating-point
//! work left to the program around the library; laying out the cards is
//! here.

use vstd::prelude::*;
use crate::color::Color;
use crate::render::{
    Line, Span, line_view, width_of_line, line_width, span, view_width, text_width, lemma_view_width_concat,
    lemma_view_width_of_line, lemma_spaces_width, lemma_narrow_width, lemma_single_width,
};
use crate::text::{repeat_char, push_char, chars_of};
use crate::config::Config;
use crate::time::LocalTime;
use crate::faces::digital::blink_off_phase;

verus! {

/// The characters of `s` that are not colons, in order.
pub open spec fn without_colons(s: Seq<char>) -> Seq<char>
    decreases s.len(),
{
    if s.len() == 0 {
        Seq::empty()
    } else {
        let rest = without_colons(s.drop_last());
        if s.last() == ':' {
            rest
        } else {
            rest.push(s.last())
        }
    }
}

/// The characters that get a card: the clock text without its colons.
pub fn card_digits(text: &str) -> (d: Vec<char>)
    ensures
        d@ == without_colons(text@),
{
    let cs = chars_of(text);
    let n = cs.len();
    let mut d: Vec<char> = Vec::new();
    let mut i: usize = 0;
    while i < n
        invariant
            n == cs@.len(),
            i <= n,
            d@ == without_colons(cs@.take(i as int)),
        decreases n - i,
    {
        assert(cs@.take(i + 1).drop_last() == cs@.take(i as int));
        if cs[i] != ':' {
            d.push(cs[i]);
        }
        i += 1;
    }
    assert(cs@.take(n as int) == cs@);
    d
}

/// Whether the colon between the card groups is lit: always, unless it
/// blinks and is in its hidden half-second.
pub fn colon_lit(now: &LocalTime, cfg: &Config) -> (b: bool)
    ensures
        b == !(cfg.blink_colon && blink_off_phase(now.millis as int)),
{
    let half = now.millis.checked_div(500).unwrap();
    let phase = half.checked_rem(2).unwrap();
    !cfg.blink_colon || phase != 0
}

/// The colors of the cards.
#[derive(Clone, Copy)]
pub struct CardColors {
    /// The card's border.
    pub border: Color,
    /// The seam across the middle.
    pub seam: Color,
    /// The padding either side of a digit.
    pub pad: Color,
    /// The colon between the groups.
    pub colon: Color,
}

/// `n` spaces.
pub open spec fn spaces(n: int) -> Seq<char> {
    Seq::new(n as nat, |i: int| ' ')
}

/// `left`, then `inner` copies of `fill`, then `right`.
pub open spec fn rule(left: char, fill: char, right: char, inner: int) -> Seq<char> {
    seq![left] + Seq::new(inner as nat, |i: int| fill) + seq![right]
}

/// The colon's dot shows on the rows a third and two thirds of the way
/// down, while the colon is lit.
pub open spec fn colon_mark(row: int, card_h: int, colon_on: bool) -> char {
    if colon_on && (row == card_h / 3 || row == 2 * card_h / 3) {
        '\u{25cf}'
    } else {
        ' '
    }
}

/// Row `gi` of a rendered digit; nothing past its last row.
pub open spec fn glyph_row(glyph: Seq<Line>, gi: int) -> Seq<Span> {
    if 0 <= gi < glyph.len() {
        glyph[gi]@
    } else {
        Seq::empty()
    }
}

/// Which row of the digit shows on card row `row`: the rows below the seam
/// move up by one to make room for it.
pub open spec fn digit_row(row: int, seam_row: int) -> int {
    if row > seam_row {
        row - 2
    } else {
        row - 1
    }
}

/// Row `row` of one card: the top and bottom borders, the seam, or the
/// digit's row between side borders, centred on the card (the odd column of
/// padding on the right).
pub open spec fn card_body(
    glyph: Seq<Line>,
    row: int,
    inner_w: int,
    card_h: int,
    seam_row: int,
    colors: CardColors,
) -> Seq<(Seq<char>, Color)> {
    if row == 0 {
        seq![(rule('\u{250c}', '\u{2500}', '\u{2510}', inner_w), colors.border)]
    } else if row == card_h - 1 {
        seq![(rule('\u{2514}', '\u{2500}', '\u{2518}', inner_w), colors.border)]
    } else if row == seam_row {
        seq![(rule('\u{251c}', '\u{2504}', '\u{2524}', inner_w), colors.seam)]
    } else {
        let g = glyph_row(glyph, digit_row(row, seam_row));
        let gw = width_of_line(g);
        let pad = if inner_w > gw {
            inner_w - gw
        } else {
            0
        };
        let left = pad / 2;
        seq![(seq!['\u{2502}'], colors.border), (spaces(left), colors.pad)] + line_view(g) + seq![
            (spaces(pad - left), colors.pad),
            (seq!['\u{2502}'], colors.border),
        ]
    }
}

/// Card `i` on row `row`, after the colon that comes before every second
/// card.
pub open spec fn card_piece(
    glyphs: Seq<Vec<Line>>,
    i: int,
    row: int,
    inner_w: int,
    card_h: int,
    seam_row: int,
    colon_on: bool,
    colors: CardColors,
) -> Seq<(Seq<char>, Color)> {
    let sep = if i > 0 && i % 2 == 0 {
        seq![(seq![' ', colon_mark(row, card_h, colon_on), ' '], colors.colon)]
    } else {
        Seq::empty()
    };
    sep + card_body(glyphs[i]@, row, inner_w, card_h, seam_row, colors)
}

/// Row `row` of the first `n` cards.
pub open spec fn card_row(
    glyphs: Seq<Vec<Line>>,
    n: int,
    row: int,
    inner_w: int,
    card_h: int,
    seam_row: int,
    colon_on: bool,
    colors: CardColors,
) -> Seq<(Seq<char>, Color)>
    decreases n,
{
    if n <= 0 {
        Seq::empty()
    } else {
        card_row(glyphs, n - 1, row, inner_w, card_h, seam_row, colon_on, colors) + card_piece(
            glyphs,
            n - 1,
            row,
            inner_w,
            card_h,
            seam_row,
            colon_on,
            colors,
        )
    }
}

/// Appends a span.
fn push_span(l: &mut Line, text: String, color: Color)
    ensures
        line_view(final(l)@) == line_view(old(l)@).push((text@, color)),
{
    let ghost t = text@;
    l.push(span(text, color));
    assert(line_view(l@) =~= line_view(old(l)@).push((t, color)));
}

/// Appends copies of the spans of `g`.
fn push_copies(l: &mut Line, g: &Line)
    ensures
        line_view(final(l)@) == line_view(old(l)@) + line_view(g@),
{
    let n = g.len();
    let mut k: usize = 0;
    while k < n
        invariant
            n == g@.len(),
            k <= n,
            line_view(l@) == line_view(old(l)@) + line_view(g@.take(k as int)),
        decreases n - k,
    {
        push_span(l, g[k].text.clone(), g[k].color);
        assert(line_view(g@.take(k + 1)) =~= line_view(g@.take(k as int)).push((g@[k as int].text@, g@[k as int].color)));
        k += 1;
    }
    assert(g@.take(n as int) == g@);
}

/// `left`, `inner` copies of `fill`, `right`.
fn rule_text(left: char, fill: char, right: char, inner: usize) -> (s: String)
    ensures
        s@ == rule(left, fill, right, inner as int),
{
    let mut s = String::new();
    push_char(&mut s, left);
    let mid = repeat_char(fill, inner);
    s.append(mid.as_str());
    push_char(&mut s, right);
    assert(s@ =~= rule(left, fill, right, inner as int));
    s
}

/// Appends card `glyph` on row `row`.
fn push_card_body(
    l: &mut Line,
    glyph: &Vec<Line>,
    row: usize,
    inner_w: usize,
    card_h: usize,
    seam_row: usize,
    colors: &CardColors,
)
    requires
        row < card_h,
        seam_row >= 1,
        forall|r: int| 0 <= r < glyph@.len() ==> width_of_line((#[trigger] glyph@[r])@) <= usize::MAX,
    ensures
        line_view(final(l)@) == line_view(old(l)@) + card_body(
            glyph@,
            row as int,
            inner_w as int,
            card_h as int,
            seam_row as int,
            *colors,
        ),
{
    if row == 0 {
        push_span(l, rule_text('\u{250c}', '\u{2500}', '\u{2510}', inner_w), colors.border);
    } else if row == card_h - 1 {
        push_span(l, rule_text('\u{2514}', '\u{2500}', '\u{2518}', inner_w), colors.border);
    } else if row == seam_row {
        push_span(l, rule_text('\u{251c}', '\u{2504}', '\u{2524}', inner_w), colors.seam);
    } else {
        let gi = if row > seam_row {
            row - 2
        } else {
            row - 1
        };
        let empty: Line = Vec::new();
        let g: &Line = if gi < glyph.len() {
            &glyph[gi]
        } else {
            &empty
        };
        assert(g@ == glyph_row(glyph@, digit_row(row as int, seam_row as int)));
        let gw = line_width(g);
        let pad = if inner_w > gw {
            inner_w - gw
        } else {
            0
        };
        let left = pad / 2;
        let ghost before = line_view(l@);
        let mut bar = String::new();
        push_char(&mut bar, '\u{2502}');
        push_span(l, bar, colors.border);
        push_span(l, repeat_char(' ', left), colors.pad);
        push_copies(l, g);
        push_span(l, repeat_char(' ', pad - left), colors.pad);
        let mut bar2 = String::new();
        push_char(&mut bar2, '\u{2502}');
        push_span(l, bar2, colors.border);
        assert(line_view(l@) =~= before + card_body(
            glyph@,
            row as int,
            inner_w as int,
            card_h as int,
            seam_row as int,
            *colors,
        ));
    }
}

/// The rows of a card for a digit `glyph_rows` rows tall: two borders and
/// the seam on top of the digit.
pub open spec fn card_height(glyph_rows: int) -> int {
    glyph_rows + 3
}

/// The seam runs across the middle of the digit.
pub open spec fn seam_at(glyph_rows: int) -> int {
    1 + glyph_rows / 2
}

/// Lays out the cards row by row for digits `glyph_rows` rows tall: each
/// card is `inner_w + 2` columns wide and `card_height(glyph_rows)` rows
/// tall, the digit's rows (`glyphs[i]`) centred between its side borders
/// and split by the seam on row `seam_at(glyph_rows)`. Before every second
/// card stands a colon, its dots lit when `colon_on`.
pub fn cards(glyphs: &Vec<Vec<Line>>, inner_w: usize, glyph_rows: usize, colon_on: bool, colors: &CardColors) -> (lines: Vec<Line>)
    requires
        glyph_rows <= usize::MAX / 4,
        forall|i: int, r: int|
            0 <= i < glyphs@.len() && 0 <= r < glyphs@[i]@.len() ==> width_of_line(
                (#[trigger] glyphs@[i]@[r])@,
            ) <= usize::MAX,
    ensures
        lines@.len() == card_height(glyph_rows as int),
        forall|row: int|
            0 <= row < card_height(glyph_rows as int) ==> line_view((#[trigger] lines@[row])@) == card_row(
                glyphs@,
                glyphs@.len() as int,
                row,
                inner_w as int,
                card_height(glyph_rows as int),
                seam_at(glyph_rows as int),
                colon_on,
                *colors,
            ),
{
    let card_h = glyph_rows + 3;
    let seam_row = 1 + glyph_rows / 2;
    let n = glyphs.len();
    let mut lines: Vec<Line> = Vec::new();
    let mut row: usize = 0;
    while row < card_h
        invariant
            n == glyphs@.len(),
            card_h == card_height(glyph_rows as int),
            seam_row == seam_at(glyph_rows as int),
            glyph_rows <= usize::MAX / 4,
            row <= card_h,
            lines@.len() == row,
            forall|i: int, r: int|
                0 <= i < glyphs@.len() && 0 <= r < glyphs@[i]@.len() ==> width_of_line(
                    (#[trigger] glyphs@[i]@[r])@,
                ) <= usize::MAX,
            forall|q: int|
                0 <= q < row ==> line_view((#[trigger] lines@[q])@) == card_row(
                    glyphs@,
                    n as int,
                    q,
                    inner_w as int,
                    card_h as int,
                    seam_row as int,
                    colon_on,
                    *colors,
                ),
        decreases card_h - row,
    {
        let mut l: Line = Vec::new();
        let mut i: usize = 0;
        while i < n
            invariant
                n == glyphs@.len(),
                card_h == card_height(glyph_rows as int),
                seam_row == seam_at(glyph_rows as int),
                glyph_rows <= usize::MAX / 4,
                row < card_h,
                i <= n,
                forall|i: int, r: int|
                    0 <= i < glyphs@.len() && 0 <= r < glyphs@[i]@.len() ==> width_of_line(
                        (#[trigger] glyphs@[i]@[r])@,
                    ) <= usize::MAX,
                line_view(l@) == card_row(
                    glyphs@,
                    i as int,
                    row as int,
                    inner_w as int,
                    card_h as int,
                    seam_row as int,
                    colon_on,
                    *colors,
                ),
            decreases n - i,
        {
            let ghost before = line_view(l@);
            if i > 0 && i % 2 == 0 {
                let dot = row == card_h / 3 || row == 2 * card_h / 3;
                let mark = if colon_on && dot {
                    '\u{25cf}'
                } else {
                    ' '
                };
                let mut t = String::new();
                push_char(&mut t, ' ');
                push_char(&mut t, mark);
                push_char(&mut t, ' ');
                assert(t@ =~= seq![' ', colon_mark(row as int, card_h as int, colon_on), ' ']);
                push_span(&mut l, t, colors.colon);
            }
            push_card_body(&mut l, &glyphs[i], row, inner_w, card_h, seam_row, colors);
            assert(line_view(l@) =~= before + card_piece(
                glyphs@,
                i as int,
                row as int,
                inner_w as int,
                card_h as int,
                seam_row as int,
                colon_on,
                *colors,
            ));
            i += 1;
        }
        lines.push(l);
        row += 1;
    }
    lines
}


/// The width of the first `n` cards of a row: each card `inner_w + 2`
/// columns, and a 3-column colon before every second card.
pub open spec fn cards_width(n: int, inner_w: int) -> int
    decreases n,
{
    if n <= 0 {
        0
    } else {
        cards_width(n - 1, inner_w) + (if n - 1 > 0 && (n - 1) % 2 == 0 {
            3int
        } else {
            0int
        }) + inner_w + 2
    }
}

proof fn lemma_rule_width(l: char, f: char, r: char, n: int)
    requires
        n >= 0,
        l != '\u{1F431}',
        f != '\u{1F431}',
        r != '\u{1F431}',
    ensures
        text_width(rule(l, f, r, n)) == n + 2,
{
    lemma_narrow_width(rule(l, f, r, n));
}

proof fn lemma_card_body_width(
    glyph: Seq<Line>,
    row: int,
    inner_w: int,
    card_h: int,
    seam_row: int,
    colors: CardColors,
)
    requires
        inner_w >= 0,
        forall|r: int| 0 <= r < glyph.len() ==> width_of_line((#[trigger] glyph[r])@) <= inner_w,
    ensures
        view_width(card_body(glyph, row, inner_w, card_h, seam_row, colors)) == inner_w + 2,
{
    if row == 0 {
        lemma_rule_width('\u{250c}', '\u{2500}', '\u{2510}', inner_w);
        lemma_single_width(rule('\u{250c}', '\u{2500}', '\u{2510}', inner_w), colors.border);
    } else if row == card_h - 1 {
        lemma_rule_width('\u{2514}', '\u{2500}', '\u{2518}', inner_w);
        lemma_single_width(rule('\u{2514}', '\u{2500}', '\u{2518}', inner_w), colors.border);
    } else if row == seam_row {
        lemma_rule_width('\u{251c}', '\u{2504}', '\u{2524}', inner_w);
        lemma_single_width(rule('\u{251c}', '\u{2504}', '\u{2524}', inner_w), colors.seam);
    } else {
        let g = glyph_row(glyph, digit_row(row, seam_row));
        let gw = width_of_line(g);
        assert(gw <= inner_w) by {
            if !(0 <= digit_row(row, seam_row) < glyph.len()) {
                assert(g =~= Seq::<Span>::empty());
            }
        }
        let pad = inner_w - gw;
        let left = pad / 2;
        let a = seq![(seq!['\u{2502}'], colors.border), (spaces(left), colors.pad)];
        let b = seq![(spaces(pad - left), colors.pad), (seq!['\u{2502}'], colors.border)];
        lemma_narrow_width(seq!['\u{2502}']);
        lemma_spaces_width(left as nat);
        lemma_spaces_width((pad - left) as nat);
        lemma_view_width_of_line(g);
        assert(a =~= seq![(seq!['\u{2502}'], colors.border)] + seq![(spaces(left), colors.pad)]);
        assert(b =~= seq![(spaces(pad - left), colors.pad)] + seq![(seq!['\u{2502}'], colors.border)]);
        lemma_single_width(seq!['\u{2502}'], colors.border);
        lemma_single_width(spaces(left), colors.pad);
        lemma_single_width(spaces(pad - left), colors.pad);
        lemma_view_width_concat(seq![(seq!['\u{2502}'], colors.border)], seq![(spaces(left), colors.pad)]);
        lemma_view_width_concat(seq![(spaces(pad - left), colors.pad)], seq![(seq!['\u{2502}'], colors.border)]);
        lemma_view_width_concat(a, line_view(g));
        lemma_view_width_concat(a + line_view(g), b);
    }
}

/// The cards line up: when no digit row is wider than a card's inside,
/// every row of the laid-out cards is equally wide, `cards_width` columns.
pub proof fn lemma_card_rows_even(
    glyphs: Seq<Vec<Line>>,
    n: int,
    row: int,
    inner_w: int,
    card_h: int,
    seam_row: int,
    colon_on: bool,
    colors: CardColors,
)
    requires
        0 <= n <= glyphs.len(),
        inner_w >= 0,
        forall|i: int, r: int|
            0 <= i < glyphs.len() && 0 <= r < glyphs[i]@.len() ==> width_of_line((#[trigger] glyphs[i]@[r])@)
                <= inner_w,
    ensures
        view_width(card_row(glyphs, n, row, inner_w, card_h, seam_row, colon_on, colors)) == cards_width(n, inner_w),
    decreases n,
{
    if n > 0 {
        lemma_card_rows_even(glyphs, n - 1, row, inner_w, card_h, seam_row, colon_on, colors);
        let i = n - 1;
        assert forall|r: int| 0 <= r < glyphs[i]@.len() implies width_of_line((#[trigger] glyphs[i]@[r])@) <= inner_w by {
            assert(width_of_line(glyphs[i]@[r]@) <= inner_w);
        }
        lemma_card_body_width(glyphs[i]@, row, inner_w, card_h, seam_row, colors);
        let sep = if i > 0 && i % 2 == 0 {
            seq![(seq![' ', colon_mark(row, card_h, colon_on), ' '], colors.colon)]
        } else {
            Seq::empty()
        };
        if i > 0 && i % 2 == 0 {
            lemma_narrow_width(seq![' ', colon_mark(row, card_h, colon_on), ' ']);
            lemma_single_width(seq![' ', colon_mark(row, card_h, colon_on), ' '], colors.colon);
        }
        let body = card_body(glyphs[i]@, row, inner_w, card_h, seam_row, colors);
        lemma_view_width_concat(sep, body);
        lemma_view_width_concat(card_row(glyphs, n - 1, row, inner_w, card_h, seam_row, colon_on, colors), sep + body);
    }
}

} // verus!
