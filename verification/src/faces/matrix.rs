//! The matrix face: a sharp seven-segment clock drawn with braille dots.

use vstd::prelude::*;
use crate::config::Config;
use crate::time::{
    LocalTime, display_hour, two_digits, shown_hour, push_two_digits, two_digit_value, is_decimal,
    lemma_two_digits_read, lemma_display_hour,
};
use crate::faces::digital::blink_off_phase;
use crate::text::{push_char, chars_of};
use crate::braille::{dot_bit, braille_char, cell_char};
use crate::seg7::masked;

verus! {

/// Which of the 7 segments (a=top, b=upper-right, c=lower-right, d=bottom,
/// e=lower-left, f=upper-left, g=middle) are lit for a digit; none for any
/// other character.
pub open spec fn digit_segments(c: char) -> Seq<bool> {
    if c == '0' {
        seq![true, true, true, true, true, true, false]
    } else if c == '1' {
        seq![false, true, true, false, false, false, false]
    } else if c == '2' {
        seq![true, true, false, true, true, false, true]
    } else if c == '3' {
        seq![true, true, true, true, false, false, true]
    } else if c == '4' {
        seq![false, true, true, false, false, true, true]
    } else if c == '5' {
        seq![true, false, true, true, false, true, true]
    } else if c == '6' {
        seq![true, false, true, true, true, true, true]
    } else if c == '7' {
        seq![true, true, true, false, false, false, false]
    } else if c == '8' {
        seq![true, true, true, true, true, true, true]
    } else if c == '9' {
        seq![true, true, true, true, false, true, true]
    } else {
        seq![false, false, false, false, false, false, false]
    }
}

pub fn segments(c: char) -> (s: [bool; 7])
    ensures
        s@ == digit_segments(c),
{
    let s = if c == '0' {
        [true, true, true, true, true, true, false]
    } else if c == '1' {
        [false, true, true, false, false, false, false]
    } else if c == '2' {
        [true, true, false, true, true, false, true]
    } else if c == '3' {
        [true, true, true, true, false, false, true]
    } else if c == '4' {
        [false, true, true, false, false, true, true]
    } else if c == '5' {
        [true, false, true, true, false, true, true]
    } else if c == '6' {
        [true, false, true, true, true, true, true]
    } else if c == '7' {
        [true, true, true, false, false, false, false]
    } else if c == '8' {
        [true, true, true, true, true, true, true]
    } else if c == '9' {
        [true, true, true, true, false, true, true]
    } else {
        [false; 7]
    };
    assert(s@ =~= digit_segments(c));
    s
}

/// The matrix face's text: HH:MM, and :SS when seconds are shown.
pub open spec fn matrix_text(now: LocalTime, cfg: Config) -> Seq<char> {
    let hm = two_digits(display_hour(now.hour as int, cfg.hour12)) + seq![':'] + two_digits(now.minute as int);
    if cfg.show_seconds {
        hm + seq![':'] + two_digits(now.second as int)
    } else {
        hm
    }
}

/// The matrix face's text, which of its glyphs are blanked by the blinking
/// colons, and the am/pm tag ("AM"/"PM" on a 12-hour clock).
pub fn clock_text(now: &LocalTime, cfg: &Config) -> (r: (String, Vec<bool>, &'static str))
    requires
        now.wf(),
    ensures
        r.0@ == matrix_text(*now, *cfg),
        r.1@.len() == r.0@.len(),
        forall|i: int|
            0 <= i < r.1@.len() ==> #[trigger] r.1@[i] == (cfg.blink_colon && blink_off_phase(now.millis as int)
                && (i == 2 || (i == 5 && cfg.show_seconds))),
        r.2@ == (if cfg.hour12 {
            if now.hour < 12 {
                "AM"@
            } else {
                "PM"@
            }
        } else {
            ""@
        }),
{
    let hour = shown_hour(now.hour, cfg.hour12);
    let mut text = String::new();
    push_two_digits(&mut text, hour);
    push_char(&mut text, ':');
    push_two_digits(&mut text, now.minute);
    let mut colons: Vec<usize> = Vec::new();
    colons.push(2);
    if cfg.show_seconds {
        push_char(&mut text, ':');
        push_two_digits(&mut text, now.second);
        colons.push(5);
    }
    let len: usize = if cfg.show_seconds {
        8
    } else {
        5
    };
    assert(text@.len() == len);
    let mask = crate::faces::digital::blink_mask(now, cfg, len, &colons);
    proof {
        assert forall|i: int| 0 <= i < len implies #[trigger] colons@.contains(i as usize) == (i == 2 || (i == 5
            && cfg.show_seconds)) by {
            if i == 2 {
                assert(colons@[0] == 2);
            }
            if i == 5 && cfg.show_seconds {
                assert(colons@[1] == 5);
            }
        }
    }
    let suffix = if cfg.hour12 {
        if now.hour < 12 {
            "AM"
        } else {
            "PM"
        }
    } else {
        ""
    };
    (text, mask, suffix)
}


/// The dot unit: the scale, at least 1.
pub open spec fn mx_unit(scale: u8) -> int {
    if scale < 1 {
        1
    } else {
        scale as int
    }
}

/// Dots a glyph takes across: 4 units for a colon, 8 for a digit.
pub open spec fn mx_advance(c: char, u: int) -> int {
    if c == ':' {
        4 * u
    } else {
        8 * u
    }
}

/// Where glyph `i` starts: the glyphs before it, each followed by a
/// 4-unit gutter.
pub open spec fn mx_origin(s: Seq<char>, u: int, i: int) -> int
    decreases i,
{
    if i <= 0 {
        0
    } else {
        mx_origin(s, u, i - 1) + mx_advance(s[i - 1], u) + 4 * u
    }
}

/// Dots across the whole text: the glyphs and the gutters between them.
pub open spec fn mx_total(s: Seq<char>, u: int) -> int {
    if s.len() == 0 {
        0
    } else {
        mx_origin(s, u, s.len() as int) - 4 * u
    }
}

/// Cells across: enough for every dot and one cell to spare.
pub open spec fn mx_cols(s: Seq<char>, u: int) -> int {
    (mx_total(s, u) + 1) / 2 + 1
}

/// Cells down: the 16-unit height and one row to spare.
pub open spec fn mx_rows(u: int) -> int {
    4 * u + 1
}

/// `num / den` rounded to the nearest integer, halves up.
pub open spec fn half_up(num: int, den: int) -> int {
    (2 * num + den) / (2 * den)
}

/// A colon's dots fill the rows from 0.28 to 0.32 and from 0.68 to 0.72 of
/// the height (16 units), each end rounded to the nearest row.
pub open spec fn colon_row(u: int, y: int) -> bool {
    (half_up(112 * u, 25) <= y <= half_up(128 * u, 25)) || (half_up(272 * u, 25) <= y <= half_up(
        288 * u,
        25,
    ))
}

/// Whether the dot `dx` across from the glyph's start and `y` down belongs
/// to glyph `c`: a digit's lit segments run through every dot between its
/// corners (8 units wide, 16 tall, the middle bar half way down); a colon's
/// two dots sit on its centre column.
pub open spec fn glyph_dot(c: char, u: int, dx: int, y: int) -> bool {
    if c == ':' {
        dx == 2 * u && colon_row(u, y)
    } else {
        let s = digit_segments(c);
        let (w, h, m) = (8 * u, 16 * u, 8 * u);
        ||| s[0] && y == 0 && 0 <= dx <= w
        ||| s[1] && dx == w && 0 <= y <= m
        ||| s[2] && dx == w && m <= y <= h
        ||| s[3] && y == h && 0 <= dx <= w
        ||| s[4] && dx == 0 && m <= y <= h
        ||| s[5] && dx == 0 && 0 <= y <= m
        ||| s[6] && y == m && 0 <= dx <= w
    }
}

/// Whether dot (`x`, `y`) is set by one of the first `n` glyphs of `s`
/// that `mask` does not blank.
pub open spec fn mx_lit(s: Seq<char>, mask: Seq<bool>, u: int, x: int, y: int, n: int) -> bool
    decreases n,
{
    if n <= 0 {
        false
    } else {
        mx_lit(s, mask, u, x, y, n - 1) || (!masked(mask, n - 1) && glyph_dot(
            s[n - 1],
            u,
            x - mx_origin(s, u, n - 1),
            y,
        ))
    }
}

/// Whether dot (`x`, `y`) of the rendering is set.
pub open spec fn mx_dot(s: Seq<char>, mask: Seq<bool>, u: int, x: int, y: int) -> bool {
    mx_lit(s, mask, u, x, y, s.len() as int)
}

/// The braille dots of cell (`r`, `c`).
pub open spec fn mx_bits(s: Seq<char>, mask: Seq<bool>, u: int, r: int, c: int) -> int {
    let bit = |sx: int, sy: int|
        if mx_dot(s, mask, u, 2 * c + sx, 4 * r + sy) {
            dot_bit(sx, sy) as int
        } else {
            0int
        };
    bit(0, 0) + bit(0, 1) + bit(0, 2) + bit(1, 0) + bit(1, 1) + bit(1, 2) + bit(0, 3) + bit(1, 3)
}

fn glyph_dot_exec(c: char, segs: &[bool; 7], u: u64, dx: u64, y: u64, colon: &[u64; 4]) -> (b: bool)
    requires
        segs@ == digit_segments(c),
        u >= 1,
        u <= 255,
        colon@ == seq![
            half_up(112 * u, 25) as u64,
            half_up(128 * u, 25) as u64,
            half_up(272 * u, 25) as u64,
            half_up(288 * u, 25) as u64,
        ],
    ensures
        b == glyph_dot(c, u as int, dx as int, y as int),
{
    if c == ':' {
        dx == 2 * u && ((colon[0] <= y && y <= colon[1]) || (colon[2] <= y && y <= colon[3]))
    } else {
        let (w, h, m) = (8 * u, 16 * u, 8 * u);
        (segs[0] && y == 0 && dx <= w) || (segs[1] && dx == w && y <= m) || (segs[2] && dx == w && m <= y
            && y <= h) || (segs[3] && y == h && dx <= w) || (segs[4] && dx == 0 && m <= y && y <= h) || (
        segs[5] && dx == 0 && y <= m) || (segs[6] && y == m && dx <= w)
    }
}

proof fn lemma_origin_grows(s: Seq<char>, u: int, j: int, i: int)
    requires
        0 <= j <= i,
        u >= 1,
    ensures
        mx_origin(s, u, j) <= mx_origin(s, u, i),
    decreases i - j,
{
    if j < i {
        lemma_origin_grows(s, u, j, i - 1);
    }
}

/// Whether dot (`x`, `y`) is set, looking at every glyph.
fn dot_set(cs: &Vec<char>, segs: &Vec<[bool; 7]>, mask: &[bool], u: u64, x: u64, y: u64, colon: &[u64; 4]) -> (b: bool)
    requires
        segs@.len() == cs@.len(),
        forall|i: int| 0 <= i < cs@.len() ==> (#[trigger] segs@[i])@ == digit_segments(cs@[i]),
        1 <= u <= 255,
        mx_origin(cs@, u as int, cs@.len() as int) <= u64::MAX,
        colon@ == seq![
            half_up(112 * u, 25) as u64,
            half_up(128 * u, 25) as u64,
            half_up(272 * u, 25) as u64,
            half_up(288 * u, 25) as u64,
        ],
    ensures
        b == mx_dot(cs@, mask@, u as int, x as int, y as int),
{
    let n = cs.len();
    let mut lit = false;
    let mut o: u64 = 0;
    let mut i: usize = 0;
    while i < n
        invariant
            n == cs@.len(),
            segs@.len() == n,
            forall|i: int| 0 <= i < cs@.len() ==> (#[trigger] segs@[i])@ == digit_segments(cs@[i]),
            1 <= u <= 255,
            mx_origin(cs@, u as int, n as int) <= u64::MAX,
            colon@ == seq![
                half_up(112 * u, 25) as u64,
                half_up(128 * u, 25) as u64,
                half_up(272 * u, 25) as u64,
                half_up(288 * u, 25) as u64,
            ],
            i <= n,
            o == mx_origin(cs@, u as int, i as int),
            lit == mx_lit(cs@, mask@, u as int, x as int, y as int, i as int),
        decreases n - i,
    {
        let blank = i < mask.len() && mask[i];
        let c = cs[i];
        let here = if blank || x < o {
            false
        } else {
            glyph_dot_exec(c, &segs[i], u, x - o, y, colon)
        };
        proof {
            if !blank && x < o {
                let s = digit_segments(c);
                assert(!glyph_dot(c, u as int, x - o, y as int));
            }
        }
        lit = lit || here;
        proof {
            lemma_origin_grows(cs@, u as int, i + 1, n as int);
        }
        let adv: u64 = if c == ':' {
            4 * u
        } else {
            8 * u
        };
        o = o + adv + 4 * u;
        i += 1;
    }
    lit
}

/// The rendering's rows: `mx_rows` rows of `mx_cols` braille cells.
pub open spec fn mx_lines(s: Seq<char>, mask: Seq<bool>, u: int) -> Seq<Seq<char>> {
    Seq::new(
        mx_rows(u) as nat,
        |r: int| Seq::new(mx_cols(s, u) as nat, |c: int| braille_char(mx_bits(s, mask, u, r, c) as u8)),
    )
}

/// Renders `text` (digits, colons and spaces) as seven-segment glyphs of
/// braille dots, `scale` dot units to a unit (at least 1): a digit is 8
/// units wide and 16 tall, a colon 4 wide, with a 4-unit gutter between
/// glyphs. Glyphs that `blink_mask` marks are left blank. Every row has
/// `mx_cols` cells, each the braille pattern of its dots.
pub fn render_text(text: &str, scale: u8, blink_mask: &[bool]) -> (lines: Vec<String>)
    requires
        mx_cols(text@, mx_unit(scale)) * mx_rows(mx_unit(scale)) <= usize::MAX,
    ensures
        lines@.map_values(|l: String| l@) == mx_lines(text@, blink_mask@, mx_unit(scale)),
        lines@.len() == mx_rows(mx_unit(scale)),
        forall|r: int|
            0 <= r < lines@.len() ==> (#[trigger] lines@[r])@ == Seq::new(
                mx_cols(text@, mx_unit(scale)) as nat,
                |c: int| braille_char(mx_bits(text@, blink_mask@, mx_unit(scale), r, c) as u8),
            ),
{
    let u: u64 = if scale < 1 {
        1
    } else {
        scale as u64
    };
    let cs = chars_of(text);
    let n = cs.len();
    let mut segs: Vec<[bool; 7]> = Vec::new();
    let mut total: u64 = 0;
    let mut i: usize = 0;
    while i < n
        invariant
            n == cs@.len(),
            cs@ == text@,
            1 <= u <= 255,
            u == mx_unit(scale),
            mx_cols(text@, mx_unit(scale)) * mx_rows(mx_unit(scale)) <= usize::MAX,
            i <= n,
            segs@.len() == i,
            forall|k: int| 0 <= k < i ==> (#[trigger] segs@[k])@ == digit_segments(cs@[k]),
            total == mx_origin(cs@, u as int, i as int),
        decreases n - i,
    {
        segs.push(segments(cs[i]));
        proof {
            lemma_origin_grows(cs@, u as int, i + 1, n as int);
            lemma_sizes(cs@, u as int);
        }
        let adv: u64 = if cs[i] == ':' {
            4 * u
        } else {
            8 * u
        };
        total = total + adv + 4 * u;
        i += 1;
    }
    proof {
        lemma_sizes(cs@, u as int);
    }
    let tw: u64 = if n == 0 {
        0
    } else {
        total - 4 * u
    };
    let cols: usize = ((tw + 1) / 2 + 1) as usize;
    let rows: usize = (4 * u + 1) as usize;
    let colon: [u64; 4] = [(224 * u + 25) / 50, (256 * u + 25) / 50, (544 * u + 25) / 50, (576 * u + 25) / 50];
    let mut lines: Vec<String> = Vec::new();
    let mut r: usize = 0;
    while r < rows
        invariant
            n == cs@.len(),
            cs@ == text@,
            1 <= u <= 255,
            u == mx_unit(scale),
            segs@.len() == n,
            forall|k: int| 0 <= k < n ==> (#[trigger] segs@[k])@ == digit_segments(cs@[k]),
            mx_origin(cs@, u as int, n as int) <= u64::MAX,
            cols == mx_cols(text@, u as int),
            rows == mx_rows(u as int),
            cols * rows <= usize::MAX,
            cols <= usize::MAX / 5,
            colon@ == seq![
                half_up(112 * u, 25) as u64,
                half_up(128 * u, 25) as u64,
                half_up(272 * u, 25) as u64,
                half_up(288 * u, 25) as u64,
            ],
            r <= rows,
            lines@.len() == r,
            forall|q: int|
                0 <= q < r ==> (#[trigger] lines@[q])@ == Seq::new(
                    cols as nat,
                    |c: int| braille_char(mx_bits(text@, blink_mask@, u as int, q, c) as u8),
                ),
        decreases rows - r,
    {
        let mut line = String::new();
        let mut c: usize = 0;
        while c < cols
            invariant
                n == cs@.len(),
                cs@ == text@,
                1 <= u <= 255,
                segs@.len() == n,
                forall|k: int| 0 <= k < n ==> (#[trigger] segs@[k])@ == digit_segments(cs@[k]),
                mx_origin(cs@, u as int, n as int) <= u64::MAX,
                cols * rows <= usize::MAX,
                cols <= usize::MAX / 5,
                rows == mx_rows(u as int),
                r < rows,
                colon@ == seq![
                    half_up(112 * u, 25) as u64,
                    half_up(128 * u, 25) as u64,
                    half_up(272 * u, 25) as u64,
                    half_up(288 * u, 25) as u64,
                ],
                c <= cols,
                line@ == Seq::new(c as nat, |cc: int| braille_char(mx_bits(text@, blink_mask@, u as int, r as int, cc) as u8)),
            decreases cols - c,
        {
            let bits = cell_bits(&cs, &segs, blink_mask, u, r, c, &colon);
            assert(bits == mx_bits(text@, blink_mask@, u as int, r as int, c as int));
            push_char(&mut line, cell_char(bits));
            assert(line@ =~= Seq::new((c + 1) as nat, |cc: int| braille_char(mx_bits(text@, blink_mask@, u as int, r as int, cc) as u8)));
            c += 1;
        }
        lines.push(line);
        r += 1;
    }
    assert(lines@.map_values(|l: String| l@) =~= mx_lines(text@, blink_mask@, u as int));
    lines
}

proof fn lemma_origin_bound(s: Seq<char>, u: int, i: int)
    requires
        0 <= i,
        u >= 1,
    ensures
        8 * u * i <= mx_origin(s, u, i) <= 12 * u * i,
    decreases i,
{
    if i > 0 {
        lemma_origin_bound(s, u, i - 1);
        let a = mx_advance(s[i - 1], u);
        assert(4 * u <= a <= 8 * u);
        assert(mx_origin(s, u, i) == mx_origin(s, u, i - 1) + a + 4 * u);
        assert(12 * u * (i - 1) + 12 * u == 12 * u * i) by (nonlinear_arith);
        assert(8 * u * (i - 1) + 8 * u == 8 * u * i) by (nonlinear_arith);
    } else {
        assert(8 * u * i == 0 && 12 * u * i == 0) by (nonlinear_arith)
            requires i == 0;
    }
}

/// The sizes that `render_text` computes fit the machine's integers.
proof fn lemma_sizes(s: Seq<char>, u: int)
    requires
        1 <= u <= 255,
        mx_cols(s, u) * mx_rows(u) <= usize::MAX,
    ensures
        mx_origin(s, u, s.len() as int) <= usize::MAX,
        mx_cols(s, u) <= usize::MAX / 5,
        s.len() > 0 ==> mx_origin(s, u, s.len() as int) >= 4 * u,
{
    lemma_origin_bound(s, u, s.len() as int);
    let cols = mx_cols(s, u);
    let rows = mx_rows(u);
    if s.len() > 0 {
        assert(8 * u * s.len() >= 8 * u) by (nonlinear_arith)
            requires u >= 1, s.len() >= 1;
    }
    assert(mx_total(s, u) >= 0);
    assert(cols >= 1);
    assert(cols * rows >= cols * 5) by (nonlinear_arith)
        requires rows >= 5, cols >= 1;
}

/// The dots of cell (`r`, `c`) as braille bits.
fn cell_bits(
    cs: &Vec<char>,
    segs: &Vec<[bool; 7]>,
    mask: &[bool],
    u: u64,
    r: usize,
    c: usize,
    colon: &[u64; 4],
) -> (bits: u8)
    requires
        segs@.len() == cs@.len(),
        forall|i: int| 0 <= i < cs@.len() ==> (#[trigger] segs@[i])@ == digit_segments(cs@[i]),
        1 <= u <= 255,
        mx_origin(cs@, u as int, cs@.len() as int) <= u64::MAX,
        2 * c + 2 <= u64::MAX,
        4 * r + 4 <= u64::MAX,
        colon@ == seq![
            half_up(112 * u, 25) as u64,
            half_up(128 * u, 25) as u64,
            half_up(272 * u, 25) as u64,
            half_up(288 * u, 25) as u64,
        ],
    ensures
        bits == mx_bits(cs@, mask@, u as int, r as int, c as int),
{
    let x0 = 2 * (c as u64);
    let y0 = 4 * (r as u64);
    let mut bits: u8 = 0;
    if dot_set(cs, segs, mask, u, x0, y0, colon) {
        bits = bits + 0x01;
    }
    if dot_set(cs, segs, mask, u, x0, y0 + 1, colon) {
        bits = bits + 0x02;
    }
    if dot_set(cs, segs, mask, u, x0, y0 + 2, colon) {
        bits = bits + 0x04;
    }
    if dot_set(cs, segs, mask, u, x0 + 1, y0, colon) {
        bits = bits + 0x08;
    }
    if dot_set(cs, segs, mask, u, x0 + 1, y0 + 1, colon) {
        bits = bits + 0x10;
    }
    if dot_set(cs, segs, mask, u, x0 + 1, y0 + 2, colon) {
        bits = bits + 0x20;
    }
    if dot_set(cs, segs, mask, u, x0, y0 + 3, colon) {
        bits = bits + 0x40;
    }
    if dot_set(cs, segs, mask, u, x0 + 1, y0 + 3, colon) {
        bits = bits + 0x80;
    }
    bits
}


/// `s` with the characters that `mask` marks replaced by spaces.
pub open spec fn blanked(s: Seq<char>, mask: Seq<bool>) -> Seq<char> {
    Seq::new(s.len(), |i: int| if masked(mask, i) { ' ' } else { s[i] })
}

proof fn lemma_blanked_origin(s: Seq<char>, mask: Seq<bool>, u: int, i: int)
    requires
        0 <= i <= s.len(),
        forall|j: int| 0 <= j < s.len() && masked(mask, j) ==> s[j] != ':',
    ensures
        mx_origin(s, u, i) == mx_origin(blanked(s, mask), u, i),
    decreases i,
{
    if i > 0 {
        lemma_blanked_origin(s, mask, u, i - 1);
    }
}

proof fn lemma_blanked_lit(s: Seq<char>, mask: Seq<bool>, u: int, x: int, y: int, n: int)
    requires
        0 <= n <= s.len(),
        forall|j: int| 0 <= j < s.len() && masked(mask, j) ==> s[j] != ':',
    ensures
        mx_lit(s, mask, u, x, y, n) == mx_lit(blanked(s, mask), Seq::empty(), u, x, y, n),
    decreases n,
{
    if n > 0 {
        lemma_blanked_lit(s, mask, u, x, y, n - 1);
        lemma_blanked_origin(s, mask, u, n - 1);
        let t = blanked(s, mask);
        assert(!masked(Seq::<bool>::empty(), n - 1));
        if masked(mask, n - 1) {
            assert(t[n - 1] == ' ');
            assert(digit_segments(' ') == seq![false, false, false, false, false, false, false]);
        } else {
            assert(t[n - 1] == s[n - 1]);
        }
    }
}

proof fn lemma_all_masked_dark(s: Seq<char>, mask: Seq<bool>, u: int, x: int, y: int, n: int)
    requires
        0 <= n <= s.len(),
        forall|j: int| 0 <= j < s.len() ==> masked(mask, j),
    ensures
        !mx_lit(s, mask, u, x, y, n),
    decreases n,
{
    if n > 0 {
        lemma_all_masked_dark(s, mask, u, x, y, n - 1);
    }
}

/// Blinking blanks glyphs in place: masking digits draws exactly what the
/// text with those digits replaced by spaces draws, at the same width, so
/// nothing shifts; with every glyph masked the whole block is blank.
pub proof fn lemma_mask_blanks_in_place(s: Seq<char>, mask: Seq<bool>, u: int)
    requires
        forall|j: int| 0 <= j < s.len() && masked(mask, j) ==> s[j] != ':',
    ensures
        mx_cols(s, u) == mx_cols(blanked(s, mask), u),
        forall|r: int, c: int|
            #![trigger mx_bits(s, mask, u, r, c)]
            mx_bits(s, mask, u, r, c) == mx_bits(blanked(s, mask), Seq::empty(), u, r, c),
{
    lemma_blanked_origin(s, mask, u, s.len() as int);
    assert forall|r: int, c: int|
        #![trigger mx_bits(s, mask, u, r, c)]
        mx_bits(s, mask, u, r, c) == mx_bits(blanked(s, mask), Seq::empty(), u, r, c) by {
        assert forall|x: int, y: int| mx_dot(s, mask, u, x, y) == mx_dot(blanked(s, mask), Seq::empty(), u, x, y) by {
            lemma_blanked_lit(s, mask, u, x, y, s.len() as int);
        }
    }
}

/// With every glyph masked, every cell is blank.
pub proof fn lemma_all_masked_blank(s: Seq<char>, mask: Seq<bool>, u: int, r: int, c: int)
    requires
        forall|j: int| 0 <= j < s.len() ==> masked(mask, j),
    ensures
        mx_bits(s, mask, u, r, c) == 0,
{
    assert forall|x: int, y: int| !mx_dot(s, mask, u, x, y) by {
        lemma_all_masked_dark(s, mask, u, x, y, s.len() as int);
    }
}


/// Blinking blanks glyphs in place, as the rendered rows show it: the text
/// with its masked (non-colon) glyphs renders exactly as the text with those
/// glyphs replaced by spaces renders unmasked; with every glyph masked, every
/// row is blank.
pub proof fn lemma_masked_rows(s: Seq<char>, mask: Seq<bool>, u: int)
    requires
        u >= 1,
    ensures
        (forall|j: int| 0 <= j < s.len() && masked(mask, j) ==> s[j] != ':') ==> mx_lines(s, mask, u)
            == mx_lines(blanked(s, mask), Seq::empty(), u),
        (forall|j: int| 0 <= j < s.len() ==> masked(mask, j)) ==> mx_lines(s, mask, u) == Seq::new(
            mx_rows(u) as nat,
            |r: int| Seq::new(mx_cols(s, u) as nat, |c: int| ' '),
        ),
{
    lemma_origin_bound(s, u, s.len() as int);
    if s.len() > 0 {
        assert(8 * u * s.len() >= 8 * u) by (nonlinear_arith)
            requires u >= 1, s.len() >= 1;
    }
    assert(mx_cols(s, u) >= 1);
    if forall|j: int| 0 <= j < s.len() && masked(mask, j) ==> s[j] != ':' {
        lemma_mask_blanks_in_place(s, mask, u);
        assert forall|r: int| 0 <= r < mx_rows(u) implies #[trigger] mx_lines(s, mask, u)[r] == mx_lines(
            blanked(s, mask),
            Seq::empty(),
            u,
        )[r] by {
            assert(mx_lines(s, mask, u)[r] =~= mx_lines(blanked(s, mask), Seq::empty(), u)[r]);
        }
        assert(mx_lines(s, mask, u) =~= mx_lines(blanked(s, mask), Seq::empty(), u));
    }
    if forall|j: int| 0 <= j < s.len() ==> masked(mask, j) {
        let blank = Seq::new(mx_rows(u) as nat, |r: int| Seq::new(mx_cols(s, u) as nat, |c: int| ' '));
        assert forall|r: int| 0 <= r < mx_rows(u) implies #[trigger] mx_lines(s, mask, u)[r] == blank[r] by {
            assert forall|c: int| 0 <= c < mx_cols(s, u) implies mx_lines(s, mask, u)[r][c] == ' ' by {
                lemma_all_masked_blank(s, mask, u, r, c);
            }
            assert(mx_lines(s, mask, u)[r] =~= blank[r]);
        }
        assert(mx_lines(s, mask, u) =~= blank);
    }
}

/// The matrix text reads the time: the hour first (on a 12-hour clock 1 to
/// 12 on the same place of the dial, so noon and midnight show 12), then
/// the minute and, when seconds are shown, the second, colon-separated.
pub proof fn lemma_matrix_text_reads_time(now: LocalTime, cfg: Config)
    requires
        now.wf(),
    ensures
        ({
            let t = matrix_text(now, cfg);
            let h = two_digit_value(t, 0);
            &&& is_decimal(t[0]) && is_decimal(t[1]) && t[2] == ':'
            &&& cfg.hour12 ==> 1 <= h <= 12 && h % 12 == now.hour % 12
            &&& !cfg.hour12 ==> h == now.hour
            &&& two_digit_value(t, 3) == now.minute
            &&& cfg.show_seconds ==> t.len() == 8 && t[5] == ':' && two_digit_value(t, 6) == now.second
            &&& !cfg.show_seconds ==> t.len() == 5
        }),
{
    let dh = display_hour(now.hour as int, cfg.hour12);
    lemma_display_hour(now.hour as int, cfg.hour12);
    lemma_two_digits_read(dh);
    lemma_two_digits_read(now.minute as int);
    lemma_two_digits_read(now.second as int);
    let t = matrix_text(now, cfg);
    assert(t[0] == two_digits(dh)[0] && t[1] == two_digits(dh)[1]);
    assert(t[3] == two_digits(now.minute as int)[0] && t[4] == two_digits(now.minute as int)[1]);
    if cfg.show_seconds {
        assert(t[6] == two_digits(now.second as int)[0] && t[7] == two_digits(now.second as int)[1]);
    }
}

} // verus!
