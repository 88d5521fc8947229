//! Binary-coded-decimal clock: each decimal digit of HH:MM(:SS) shown as a
//! column of 4 dots (bit weights 8, 4, 2, 1 top to bottom).

use vstd::prelude::*;
use crate::config::Config;
use crate::time::{LocalTime, display_hour, shown_hour, lemma_display_hour};
use crate::text::{push_char, push_str};

verus! {

pub const ON: char = '\u{25CF}';
pub const OFF: char = '\u{25CB}';

/// The dot for bit `row` (0 = weight 8, ..., 3 = weight 1) of digit `d`.
pub open spec fn dot(d: u32, row: int) -> char {
    let bit = if row == 0 {
        d & 8u32
    } else if row == 1 {
        d & 4u32
    } else if row == 2 {
        d & 2u32
    } else {
        d & 1u32
    };
    if bit != 0 {
        ON
    } else {
        OFF
    }
}

/// The four dots of one digit, weight 8 at the top.
pub fn digit_column(d: u32) -> (col: [char; 4])
    ensures
        forall|row: int| 0 <= row < 4 ==> #[trigger] col@[row] == dot(d, row),
{
    [
        if d & 0b1000 != 0 {
            ON
        } else {
            OFF
        },
        if d & 0b0100 != 0 {
            ON
        } else {
            OFF
        },
        if d & 0b0010 != 0 {
            ON
        } else {
            OFF
        },
        if d & 0b0001 != 0 {
            ON
        } else {
            OFF
        },
    ]
}

/// Characters separated by three spaces.
pub open spec fn spaced(cs: Seq<char>) -> Seq<char>
    decreases cs.len(),
{
    if cs.len() == 0 {
        Seq::empty()
    } else if cs.len() == 1 {
        seq![cs[0]]
    } else {
        spaced(cs.drop_last()) + seq![' ', ' ', ' ', cs.last()]
    }
}

fn spaced_line(cs: &Vec<char>) -> (s: String)
    ensures
        s@ == spaced(cs@),
{
    let mut s = String::new();
    let n = cs.len();
    let mut i: usize = 0;
    while i < n
        invariant
            n == cs@.len(),
            i <= n,
            s@ == spaced(cs@.subrange(0, i as int)),
        decreases n - i,
    {
        let ghost p = cs@.subrange(0, i + 1);
        assert(p.drop_last() == cs@.subrange(0, i as int));
        if i > 0 {
            push_char(&mut s, ' ');
            push_char(&mut s, ' ');
            push_char(&mut s, ' ');
        }
        push_char(&mut s, cs[i]);
        proof {
            if i == 0 {
                assert(s@ == seq![cs@[0]]);
            }
        }
        i += 1;
    }
    assert(cs@.subrange(0, n as int) == cs@);
    s
}

/// The decimal digits shown: hour, minute and (when shown) second, two each.
pub open spec fn shown_digits(now: LocalTime, cfg: Config) -> Seq<u32> {
    let h = display_hour(now.hour as int, cfg.hour12);
    let hm = seq![(h / 10) as u32, (h % 10) as u32, (now.minute / 10) as u32, (now.minute % 10) as u32];
    if cfg.show_seconds {
        hm + seq![(now.second / 10) as u32, (now.second % 10) as u32]
    } else {
        hm
    }
}

/// The face's lines: the column header, a blank line, the four rows of dots,
/// and the date below when it is shown.
pub open spec fn binary_lines(now: LocalTime, cfg: Config) -> Seq<Seq<char>> {
    let ds = shown_digits(now, cfg);
    let header = if cfg.show_seconds {
        seq!['H', 'H', 'M', 'M', 'S', 'S']
    } else {
        seq!['H', 'H', 'M', 'M']
    };
    let rows = Seq::new(4, |row: int| spaced(Seq::new(ds.len(), |i: int| dot(ds[i], row))));
    let body = seq![spaced(header), Seq::<char>::empty()] + rows;
    if cfg.show_date {
        body + seq![Seq::<char>::empty(), now.date_text@]
    } else {
        body
    }
}

pub fn render(now: &LocalTime, cfg: &Config) -> (lines: Vec<String>)
    requires
        now.wf(),
    ensures
        lines@.map_values(|l: String| l@) == binary_lines(*now, *cfg),
{
    let hour = shown_hour(now.hour, cfg.hour12);
    let mut digits: Vec<u32> = Vec::new();
    digits.push(hour / 10);
    digits.push(hour % 10);
    digits.push(now.minute / 10);
    digits.push(now.minute % 10);
    let mut header: Vec<char> = Vec::new();
    header.push('H');
    header.push('H');
    header.push('M');
    header.push('M');
    if cfg.show_seconds {
        digits.push(now.second / 10);
        digits.push(now.second % 10);
        header.push('S');
        header.push('S');
    }
    assert(digits@ == shown_digits(*now, *cfg));
    assert(header@ =~= (if cfg.show_seconds { seq!['H', 'H', 'M', 'M', 'S', 'S'] } else { seq!['H', 'H', 'M', 'M'] }));
    let mut lines: Vec<String> = Vec::new();
    lines.push(spaced_line(&header));
    lines.push(String::new());
    let ghost ds = digits@;
    let mut row: usize = 0;
    while row < 4
        invariant
            ds == digits@,
            row <= 4,
            lines@.len() == 2 + row,
            forall|r: int|
                0 <= r < row ==> (#[trigger] lines@[2 + r])@ == spaced(
                    Seq::new(ds.len(), |i: int| dot(ds[i], r)),
                ),
            lines@[0]@ == spaced(if cfg.show_seconds { seq!['H', 'H', 'M', 'M', 'S', 'S'] } else { seq!['H', 'H', 'M', 'M'] }),
            lines@[1]@ == Seq::<char>::empty(),
        decreases 4 - row,
    {
        let mut cells: Vec<char> = Vec::new();
        let n = digits.len();
        let mut i: usize = 0;
        while i < n
            invariant
                n == digits@.len(),
                row < 4,
                i <= n,
                cells@ == Seq::new(i as nat, |k: int| dot(digits@[k], row as int)),
            decreases n - i,
        {
            let col = digit_column(digits[i]);
            cells.push(col[row]);
            assert(cells@ =~= Seq::new((i + 1) as nat, |k: int| dot(digits@[k], row as int)));
            i += 1;
        }
        lines.push(spaced_line(&cells));
        row += 1;
    }
    if cfg.show_date {
        lines.push(String::new());
        let mut d = String::new();
        push_str(&mut d, now.date_text.as_str());
        lines.push(d);
    }
    proof {
        let bl = binary_lines(*now, *cfg);
        let ds = shown_digits(*now, *cfg);
        assert(bl.len() == lines@.len());
        assert forall|i: int| 0 <= i < lines@.len() implies (#[trigger] lines@[i])@ == bl[i] by {
            if 2 <= i < 6 {
                let r = i - 2;
                assert(lines@[2 + r]@ == spaced(Seq::new(ds.len(), |k: int| dot(ds[k], r))));
            }
        }
        assert(lines@.map_values(|l: String| l@) =~= bl);
    }
    lines
}

/// A column reads back as its digit: the weights 8, 4, 2 and 1 of the lit
/// dots, top to bottom, add up to the digit.
pub proof fn lemma_column_weights(d: u32)
    requires
        d < 16,
    ensures
        (if dot(d, 0) == ON { 8int } else { 0 }) + (if dot(d, 1) == ON { 4int } else { 0 }) + (if dot(d, 2)
            == ON { 2int } else { 0 }) + (if dot(d, 3) == ON { 1int } else { 0 }) == d,
{
    assert((d & 8u32 != 0) == (d / 8 % 2 == 1)) by (bit_vector)
        requires d < 16;
    assert((d & 4u32 != 0) == (d / 4 % 2 == 1)) by (bit_vector)
        requires d < 16;
    assert((d & 2u32 != 0) == (d / 2 % 2 == 1)) by (bit_vector)
        requires d < 16;
    assert((d & 1u32 != 0) == (d % 2 == 1)) by (bit_vector)
        requires d < 16;
    assert(ON != OFF);
}

/// What a lit dot of weight `w` adds to its column: `w`, or nothing when
/// it is dark.
pub open spec fn dot_weight(c: char, w: int) -> int {
    if c == ON {
        w
    } else {
        0
    }
}

/// The number column `j` of the face's dot rows (lines 2 to 5) reads: the
/// weights 8, 4, 2 and 1 of its lit dots, top to bottom. Column `j` stands
/// at character `4 * j` of each row.
pub open spec fn column_reading(lines: Seq<Seq<char>>, j: int) -> int {
    dot_weight(lines[2][4 * j], 8) + dot_weight(lines[3][4 * j], 4) + dot_weight(lines[4][4 * j], 2)
        + dot_weight(lines[5][4 * j], 1)
}

/// Spacing `n` characters gives `4 * n - 3` characters, with the `j`-th
/// one at position `4 * j`.
pub proof fn lemma_spaced_at(cs: Seq<char>, j: int)
    requires
        0 <= j < cs.len(),
    ensures
        spaced(cs).len() == 4 * cs.len() - 3,
        spaced(cs)[4 * j] == cs[j],
    decreases cs.len(),
{
    if cs.len() > 1 {
        let dl = cs.drop_last();
        if j < cs.len() - 1 {
            lemma_spaced_at(dl, j);
        } else {
            lemma_spaced_at(dl, 0);
        }
    }
}

/// Line `k` (2 to 5) holds, at character `4 * j`, the dot of row `k - 2`
/// of digit `j`.
proof fn lemma_row_dot(now: LocalTime, cfg: Config, k: int, j: int)
    requires
        2 <= k < 6,
        0 <= j < shown_digits(now, cfg).len(),
    ensures
        binary_lines(now, cfg)[k][4 * j] == dot(shown_digits(now, cfg)[j], k - 2),
{
    let ds = shown_digits(now, cfg);
    let cells = Seq::new(ds.len(), |i: int| dot(ds[i], k - 2));
    assert(binary_lines(now, cfg)[k] == spaced(cells));
    lemma_spaced_at(cells, j);
}

/// The dot columns read back the time shown, digit by digit: the first two
/// the hour (on a 12-hour clock 1 to 12 on the same place of the dial, so
/// noon and midnight read 12), the next two the minute and, when seconds
/// are shown, the last two the second.
pub proof fn lemma_columns_read_time(now: LocalTime, cfg: Config)
    requires
        now.wf(),
    ensures
        ({
            let ls = binary_lines(now, cfg);
            let h = column_reading(ls, 0) * 10 + column_reading(ls, 1);
            &&& forall|j: int| 0 <= j < (if cfg.show_seconds { 6int } else { 4int }) ==> 0 <= #[trigger] column_reading(ls, j) <= 9
            &&& cfg.hour12 ==> 1 <= h <= 12 && h % 12 == now.hour % 12
            &&& !cfg.hour12 ==> h == now.hour
            &&& column_reading(ls, 2) * 10 + column_reading(ls, 3) == now.minute
            &&& cfg.show_seconds ==> column_reading(ls, 4) * 10 + column_reading(ls, 5) == now.second
        }),
{
    let ls = binary_lines(now, cfg);
    let ds = shown_digits(now, cfg);
    lemma_display_hour(now.hour as int, cfg.hour12);
    let n = ds.len() as int;
    assert forall|j: int| 0 <= j < n implies #[trigger] column_reading(ls, j) == ds[j] as int by {
        lemma_row_dot(now, cfg, 2, j);
        lemma_row_dot(now, cfg, 3, j);
        lemma_row_dot(now, cfg, 4, j);
        lemma_row_dot(now, cfg, 5, j);
        assert(ds[j] < 16);
        lemma_column_weights(ds[j]);
    }
    assert(column_reading(ls, 0) == ds[0] as int);
    assert(column_reading(ls, 1) == ds[1] as int);
    assert(column_reading(ls, 2) == ds[2] as int);
    assert(column_reading(ls, 3) == ds[3] as int);
    if cfg.show_seconds {
        assert(column_reading(ls, 4) == ds[4] as int);
        assert(column_reading(ls, 5) == ds[5] as int);
    }
}

} // verus!
