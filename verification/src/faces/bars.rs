//! Horizontal progress bars for the hour, the minute and the second. How far
//! each bar is filled and its color ramp are floating-point work left to the
//! program around the library; which bars there are, their sizes and how a
//! stripe of a bar is put together are here.

use vstd::prelude::*;
use crate::color::Color;
use crate::config::{Config, clamp};
use crate::render::{Line, line_cells, span_cells, merged, push_cell, span};
use crate::text::{push_char, push_str, repeat_char};
use crate::time::{LocalTime, display_hour, shown_hour, digit, digit_char, lemma_display_hour};

verus! {

/// One bar: its label, the value it shows and the value that fills it.
pub struct BarRow {
    pub label: &'static str,
    pub value: u32,
    pub max: u32,
}

/// The bars of `now`: hours (of 12 or 24), minutes, and seconds when they
/// are shown.
pub fn bar_rows(now: &LocalTime, cfg: &Config) -> (rows: Vec<BarRow>)
    requires
        now.wf(),
    ensures
        rows@.len() == (if cfg.show_seconds {
            3int
        } else {
            2int
        }),
        rows@[0].label@ == "HOURS"@,
        rows@[0].value == display_hour(now.hour as int, cfg.hour12),
        cfg.hour12 ==> 1 <= rows@[0].value <= 12 && rows@[0].value % 12 == now.hour % 12,
        !cfg.hour12 ==> rows@[0].value == now.hour,
        rows@[0].max == (if cfg.hour12 {
            12int
        } else {
            24int
        }),
        rows@[1].label@ == "MINUTES"@,
        rows@[1].value == now.minute,
        rows@[1].max == 60,
        cfg.show_seconds ==> rows@[2].label@ == "SECONDS"@ && rows@[2].value == now.second && rows@[2].max
            == 60,
{
    let max: u32 = if cfg.hour12 {
        12
    } else {
        24
    };
    proof {
        lemma_display_hour(now.hour as int, cfg.hour12);
    }
    let mut rows: Vec<BarRow> = Vec::new();
    rows.push(BarRow { label: "HOURS", value: shown_hour(now.hour, cfg.hour12), max });
    rows.push(BarRow { label: "MINUTES", value: now.minute, max: 60 });
    if cfg.show_seconds {
        rows.push(BarRow { label: "SECONDS", value: now.second, max: 60 });
    }
    rows
}

/// The widest label of `rows`, or 7 when there are none.
pub open spec fn widest_label(rows: Seq<BarRow>) -> int
    decreases rows.len(),
{
    if rows.len() == 0 {
        7
    } else if rows.len() == 1 {
        rows[0].label@.len() as int
    } else {
        let rest = widest_label(rows.drop_last());
        let w = rows.last().label@.len() as int;
        if w > rest {
            w
        } else {
            rest
        }
    }
}

/// The width of the label column.
pub fn label_width(rows: &Vec<BarRow>) -> (w: usize)
    ensures
        w == widest_label(rows@),
{
    let n = rows.len();
    if n == 0 {
        return 7;
    }
    let mut w: usize = rows[0].label.unicode_len();
    let mut i: usize = 1;
    while i < n
        invariant
            n == rows@.len(),
            1 <= i <= n,
            w == widest_label(rows@.take(i as int)),
        decreases n - i,
    {
        assert(rows@.take(i + 1).drop_last() == rows@.take(i as int));
        let l = rows[i].label.unicode_len();
        if l > w {
            w = l;
        }
        i += 1;
    }
    assert(rows@.take(n as int) == rows@);
    w
}

/// The width of the value column: " 12/24".
pub const VALUE_W: usize = 6;

/// The length of the bars: what the row leaves after the label, the value
/// and four columns of margin, kept within 10 to 160 columns.
pub fn bar_width(avail_w: usize, label_w: usize) -> (w: usize)
    requires
        label_w + VALUE_W + 4 <= usize::MAX,
    ensures
        w == clamp(
            (if avail_w > label_w + VALUE_W + 4 {
                avail_w - (label_w + VALUE_W + 4)
            } else {
                0
            }),
            10,
            160,
        ),
{
    let rest = avail_w.saturating_sub(label_w + VALUE_W + 4);
    if rest < 10 {
        10
    } else if rest > 160 {
        160
    } else {
        rest
    }
}

/// How many rows thick each bar is: the pinned scale, or when the scale is
/// 0 what the height gives each bar (less a blank row between bars, and the
/// date rows), within 1 to 5.
pub open spec fn thickness(cfg: Config, avail_h: int, n_rows: int) -> int {
    let reserved = if cfg.show_date {
        3int
    } else {
        1int
    };
    let usable = if avail_h > reserved {
        avail_h - reserved
    } else {
        0
    };
    let per_row = usable / (if n_rows > 1 {
        n_rows
    } else {
        1
    });
    let auto = clamp(
        if per_row > 1 {
            per_row - 1
        } else {
            0
        },
        1,
        5,
    );
    if cfg.scale == 0 {
        auto
    } else {
        cfg.scale as int
    }
}

pub fn bar_thickness(cfg: &Config, avail_h: usize, n_rows: usize) -> (t: usize)
    ensures
        t == thickness(*cfg, avail_h as int, n_rows as int),
{
    let reserved: usize = if cfg.show_date {
        3
    } else {
        1
    };
    let divisor = if n_rows > 1 {
        n_rows
    } else {
        1
    };
    let per_row = avail_h.saturating_sub(reserved) / divisor;
    let less = per_row.saturating_sub(1);
    let auto = if less < 1 {
        1
    } else if less > 5 {
        5
    } else {
        less
    };
    cfg.resolve_scale(auto)
}

/// `n` in decimal, for `n` below 100.
pub open spec fn decimal(n: int) -> Seq<char> {
    if n < 10 {
        seq![digit_char(n)]
    } else {
        seq![digit_char(n / 10), digit_char(n % 10)]
    }
}

/// The value column of a bar: a space, the value right-aligned in two
/// columns, a slash and the maximum.
pub open spec fn value_text(value: int, max: int) -> Seq<char> {
    seq![' '] + (if value < 10 {
        seq![' ']
    } else {
        Seq::empty()
    }) + decimal(value) + seq!['/'] + decimal(max)
}

fn push_decimal(s: &mut String, n: u32)
    requires
        n < 100,
    ensures
        final(s)@ == old(s)@ + decimal(n as int),
{
    if n < 10 {
        push_char(s, digit(n));
    } else {
        push_char(s, digit(n / 10));
        push_char(s, digit(n % 10));
    }
}

/// `label` right-aligned in `width` columns.
pub open spec fn right_aligned(label: Seq<char>, width: int) -> Seq<char> {
    if label.len() >= width {
        label
    } else {
        Seq::new((width - label.len()) as nat, |i: int| ' ') + label
    }
}

/// The colors of one bar.
#[derive(Clone, Copy)]
pub struct BarColors {
    /// The label, on the middle stripe.
    pub label: Color,
    /// The value, on the middle stripe.
    pub value: Color,
    /// The padding on the other stripes.
    pub base: Color,
    /// The unfilled part of the bar.
    pub empty: Color,
}

/// The cells of one stripe of a bar `bar_w` columns long: the label column
/// (the label right-aligned and two spaces on the middle stripe, blank on
/// the others), the bar (`filled` full blocks colored `fill[x]`, then light
/// shade), and the value column (blank but for the middle stripe).
pub open spec fn stripe_cells(
    row: BarRow,
    label_w: int,
    is_mid: bool,
    filled: int,
    bar_w: int,
    colors: BarColors,
    fill: Seq<Color>,
) -> Seq<(char, Color)> {
    let label_part = if is_mid {
        (right_aligned(row.label@, label_w) + seq![' ', ' ']).map_values(|c: char| (c, colors.label))
    } else {
        Seq::new((label_w + 2) as nat, |i: int| (' ', colors.base))
    };
    let bar = Seq::new(
        bar_w as nat,
        |x: int|
            if x < filled {
                ('\u{2588}', fill[x])
            } else {
                ('\u{2591}', colors.empty)
            },
    );
    let v = value_text(row.value as int, row.max as int);
    let value_part = if is_mid {
        v.map_values(|c: char| (c, colors.value))
    } else {
        Seq::new(v.len(), |i: int| (' ', colors.base))
    };
    label_part + bar + value_part
}

/// One stripe of a bar. Bars thicker than a row repeat the bar on every
/// stripe; only the middle one carries the label and the value.
pub fn stripe(
    row: &BarRow,
    label_w: usize,
    is_mid: bool,
    filled: usize,
    bar_w: usize,
    colors: &BarColors,
    fill: &Vec<Color>,
) -> (l: Line)
    requires
        row.value < 100,
        row.max < 100,
        label_w + 2 <= usize::MAX,
        fill@.len() >= bar_w,
    ensures
        line_cells(l@) == stripe_cells(*row, label_w as int, is_mid, filled as int, bar_w as int, *colors, fill@),
{
    let mut first = String::new();
    let ghost label_part: Seq<(char, Color)>;
    if is_mid {
        let ll = row.label.unicode_len();
        if ll < label_w {
            first = repeat_char(' ', label_w - ll);
        }
        push_str(&mut first, row.label);
        push_char(&mut first, ' ');
        push_char(&mut first, ' ');
        assert(first@ =~= right_aligned(row.label@, label_w as int) + seq![' ', ' ']);
    } else {
        first = repeat_char(' ', label_w + 2);
    }
    let first_color = if is_mid {
        colors.label
    } else {
        colors.base
    };
    let mut l: Line = Vec::new();
    l.push(span(first, first_color));
    proof {
        assert(l@.drop_last() =~= Seq::<crate::render::Span>::empty());
        assert(line_cells(l@.drop_last()) == Seq::<(char, Color)>::empty());
        assert(line_cells(l@) == line_cells(l@.drop_last()) + span_cells(l@.last()));
        assert(line_cells(l@) =~= span_cells(l@[0]));
        let lp = if is_mid {
            (right_aligned(row.label@, label_w as int) + seq![' ', ' ']).map_values(|c: char| (c, colors.label))
        } else {
            Seq::new((label_w + 2) as nat, |i: int| (' ', colors.base))
        };
        assert(line_cells(l@) =~= lp);
        label_part = lp;
        assert(l@[0].text@.len() > 0);
    }
    let mut x: usize = 0;
    while x < bar_w
        invariant
            fill@.len() >= bar_w,
            x <= bar_w,
            merged(l@),
            line_cells(l@) == label_part + Seq::new(
                x as nat,
                |y: int|
                    if y < filled {
                        ('\u{2588}', fill@[y])
                    } else {
                        ('\u{2591}', colors.empty)
                    },
            ),
        decreases bar_w - x,
    {
        if x < filled {
            push_cell(&mut l, '\u{2588}', fill[x]);
        } else {
            push_cell(&mut l, '\u{2591}', colors.empty);
        }
        assert(line_cells(l@) =~= label_part + Seq::new(
            (x + 1) as nat,
            |y: int|
                if y < filled {
                    ('\u{2588}', fill@[y])
                } else {
                    ('\u{2591}', colors.empty)
                },
        ));
        x += 1;
    }
    let mut v = String::new();
    push_char(&mut v, ' ');
    if row.value < 10 {
        push_char(&mut v, ' ');
    }
    push_decimal(&mut v, row.value);
    push_char(&mut v, '/');
    push_decimal(&mut v, row.max);
    assert(v@ =~= value_text(row.value as int, row.max as int));
    let ghost pre = l@;
    if is_mid {
        l.push(span(v, colors.value));
    } else {
        let blank = repeat_char(' ', v.unicode_len());
        l.push(span(blank, colors.base));
    }
    proof {
        assert(l@.drop_last() == pre);
        assert(line_cells(l@) == line_cells(pre) + span_cells(l@.last()));
        assert(line_cells(l@) =~= stripe_cells(
            *row,
            label_w as int,
            is_mid,
            filled as int,
            bar_w as int,
            *colors,
            fill@,
        ));
    }
    l
}


/// Every stripe of a bar is equally wide, so centering lines them all up:
/// the label column, the bar and the value column, whether or not the
/// stripe carries the label and value.
pub proof fn lemma_stripes_same_width(
    row: BarRow,
    label_w: int,
    is_mid: bool,
    filled: int,
    bar_w: int,
    colors: BarColors,
    fill: Seq<Color>,
)
    requires
        row.label@.len() <= label_w,
        bar_w >= 0,
    ensures
        stripe_cells(row, label_w, is_mid, filled, bar_w, colors, fill).len() == label_w + 2 + bar_w
            + value_text(row.value as int, row.max as int).len(),
{
}

} // verus!
