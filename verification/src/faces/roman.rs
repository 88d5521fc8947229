//! Roman numeral clock: the time as IX : XLV. The numerals are stacked one
//! per line; drawing them in big letters is left to the vector font.

use vstd::prelude::*;
use crate::config::Config;
use crate::time::{LocalTime, display_hour, shown_hour, lemma_display_hour};
use crate::text::push_str;

verus! {

/// The value of entry `k` of the numeral table, largest first.
pub open spec fn table_value(k: int) -> int {
    if k == 0 {
        1000
    } else if k == 1 {
        900
    } else if k == 2 {
        500
    } else if k == 3 {
        400
    } else if k == 4 {
        100
    } else if k == 5 {
        90
    } else if k == 6 {
        50
    } else if k == 7 {
        40
    } else if k == 8 {
        10
    } else if k == 9 {
        9
    } else if k == 10 {
        5
    } else if k == 11 {
        4
    } else {
        1
    }
}

/// The symbols of entry `k` of the numeral table.
pub open spec fn table_symbol(k: int) -> Seq<char> {
    if k == 0 {
        seq!['M']
    } else if k == 1 {
        seq!['C', 'M']
    } else if k == 2 {
        seq!['D']
    } else if k == 3 {
        seq!['C', 'D']
    } else if k == 4 {
        seq!['C']
    } else if k == 5 {
        seq!['X', 'C']
    } else if k == 6 {
        seq!['L']
    } else if k == 7 {
        seq!['X', 'L']
    } else if k == 8 {
        seq!['X']
    } else if k == 9 {
        seq!['I', 'X']
    } else if k == 10 {
        seq!['V']
    } else if k == 11 {
        seq!['I', 'V']
    } else {
        seq!['I']
    }
}

pub const TABLE_LEN: usize = 13;

/// `n` written greedily from table entry `k` on: the largest entry that
/// fits, as often as it fits, then the next.
pub open spec fn roman_from(n: int, k: int) -> Seq<char>
    decreases TABLE_LEN - k, n,
{
    if k < 0 || k >= TABLE_LEN || n <= 0 {
        Seq::empty()
    } else if n >= table_value(k) {
        table_symbol(k) + roman_from(n - table_value(k), k)
    } else {
        roman_from(n, k + 1)
    }
}

/// The Roman numeral for `n`; zero, which Roman numerals lack, is "N"
/// ("nulla").
pub open spec fn roman(n: int) -> Seq<char> {
    if n == 0 {
        seq!['N']
    } else {
        roman_from(n, 0)
    }
}

fn entry(k: usize) -> (r: (u32, &'static str))
    requires
        k < TABLE_LEN,
    ensures
        r.0 == table_value(k as int),
        r.1@ == table_symbol(k as int),
{
    let r = if k == 0 {
        (1000, "M")
    } else if k == 1 {
        (900, "CM")
    } else if k == 2 {
        (500, "D")
    } else if k == 3 {
        (400, "CD")
    } else if k == 4 {
        (100, "C")
    } else if k == 5 {
        (90, "XC")
    } else if k == 6 {
        (50, "L")
    } else if k == 7 {
        (40, "XL")
    } else if k == 8 {
        (10, "X")
    } else if k == 9 {
        (9, "IX")
    } else if k == 10 {
        (5, "V")
    } else if k == 11 {
        (4, "IV")
    } else {
        (1, "I")
    };
    proof {
        reveal_strlit("M");
        reveal_strlit("CM");
        reveal_strlit("D");
        reveal_strlit("CD");
        reveal_strlit("C");
        reveal_strlit("XC");
        reveal_strlit("L");
        reveal_strlit("XL");
        reveal_strlit("X");
        reveal_strlit("IX");
        reveal_strlit("V");
        reveal_strlit("IV");
        reveal_strlit("I");
    }
    r
}

/// `n` as a Roman numeral.
pub fn to_roman(n: u32) -> (s: String)
    ensures
        s@ == roman(n as int),
{
    if n == 0 {
        let s = String::from_str("N");
        proof {
            reveal_strlit("N");
        }
        return s;
    }
    let mut out = String::new();
    let mut m = n;
    let mut k: usize = 0;
    while k < TABLE_LEN
        invariant
            k <= TABLE_LEN,
            out@ + roman_from(m as int, k as int) == roman_from(n as int, 0),
        decreases TABLE_LEN - k,
    {
        let (v, sym) = entry(k);
        while m >= v
            invariant
                k < TABLE_LEN,
                v == table_value(k as int),
                sym@ == table_symbol(k as int),
                out@ + roman_from(m as int, k as int) == roman_from(n as int, 0),
            decreases m,
        {
            let ghost before = out@;
            push_str(&mut out, sym);
            assert(roman_from(m as int, k as int) == sym@ + roman_from(m - v, k as int));
            assert(out@ + roman_from(m - v, k as int) == before + roman_from(m as int, k as int));
            m = m - v;
        }
        assert(m > 0 ==> roman_from(m as int, k as int) == roman_from(m as int, k + 1));
        k += 1;
    }
    assert(out@ + roman_from(m as int, TABLE_LEN as int) == out@);
    out
}

/// The second shown: the face never steps faster than five seconds, as
/// numerals change length constantly.
pub open spec fn roman_second(second: int, step: u32) -> int {
    let st = if step < 5 {
        5
    } else {
        step as int
    };
    second / st * st
}

/// The numerals on the face: hour, minute and (when shown) second.
pub open spec fn numeral_parts(now: LocalTime, cfg: Config) -> Seq<Seq<char>> {
    if cfg.show_seconds {
        seq![
            roman(display_hour(now.hour as int, cfg.hour12)),
            roman(now.minute as int),
            roman(roman_second(now.second as int, cfg.second_step)),
        ]
    } else {
        seq![roman(display_hour(now.hour as int, cfg.hour12)), roman(now.minute as int)]
    }
}

/// The numerals on the face: hour, minute and (when shown) second.
pub fn numerals(now: &LocalTime, cfg: &Config) -> (parts: Vec<String>)
    requires
        now.wf(),
    ensures
        parts@.map_values(|s: String| s@) == numeral_parts(*now, *cfg),
{
    let hour = shown_hour(now.hour, cfg.hour12);
    let step = if cfg.second_step < 5 {
        5
    } else {
        cfg.second_step
    };
    assert(now.second / step * step <= now.second) by (nonlinear_arith)
        requires step >= 1;
    let second = now.second / step * step;
    let mut parts: Vec<String> = Vec::new();
    parts.push(to_roman(hour));
    parts.push(to_roman(now.minute));
    if cfg.show_seconds {
        parts.push(to_roman(second));
    }
    proof {
        assert(parts@.map_values(|s: String| s@) =~= (if cfg.show_seconds {
            seq![
                roman(display_hour(now.hour as int, cfg.hour12)),
                roman(now.minute as int),
                roman(roman_second(now.second as int, cfg.second_step)),
            ]
        } else {
            seq![roman(display_hour(now.hour as int, cfg.hour12)), roman(now.minute as int)]
        }));
    }
    parts
}

/// The longest numeral among `lo..hi`.
pub open spec fn longest_in(lo: int, hi: int) -> int
    decreases hi - lo,
{
    if lo >= hi {
        0
    } else {
        let rest = longest_in(lo + 1, hi);
        if roman(lo).len() > rest {
            roman(lo).len() as int
        } else {
            rest
        }
    }
}

/// The longest numeral any field can show: the hours of the clock (1-12 or
/// 0-23) and the minutes and seconds 0-59. The face is sized to it so it
/// does not change size from second to second.
pub open spec fn longest_numeral(hour12: bool) -> int {
    let h = if hour12 {
        longest_in(1, 13)
    } else {
        longest_in(0, 24)
    };
    let m = longest_in(0, 60);
    if h > m {
        h
    } else {
        m
    }
}

fn longest_between(lo: u32, hi: u32) -> (r: usize)
    requires
        lo <= hi,
    ensures
        r == longest_in(lo as int, hi as int),
{
    let mut best: usize = 0;
    let mut v = hi;
    while v > lo
        invariant
            lo <= v <= hi,
            best == longest_in(v as int, hi as int),
        decreases v - lo,
    {
        v = v - 1;
        let s = to_roman(v);
        let len = s.as_str().unicode_len();
        if len > best {
            best = len;
        }
    }
    best
}

/// The longest numeral the face can show, in characters.
pub fn longest(hour12: bool) -> (r: usize)
    ensures
        r == longest_numeral(hour12),
{
    let h = if hour12 {
        longest_between(1, 13)
    } else {
        longest_between(0, 24)
    };
    let m = longest_between(0, 60);
    if h > m {
        h
    } else {
        m
    }
}

/// The value of one Roman numeral letter.
pub open spec fn letter_value(c: char) -> int {
    if c == 'I' {
        1
    } else if c == 'V' {
        5
    } else if c == 'X' {
        10
    } else if c == 'L' {
        50
    } else if c == 'C' {
        100
    } else if c == 'D' {
        500
    } else if c == 'M' {
        1000
    } else {
        0
    }
}

/// The number a Roman numeral stands for, read the usual way: a letter is
/// added, unless a larger letter follows it, in which case it is subtracted.
pub open spec fn numeral_value(s: Seq<char>) -> int
    decreases s.len(),
{
    if s.len() == 0 {
        0
    } else if s.len() >= 2 && letter_value(s[0]) < letter_value(s[1]) {
        numeral_value(s.drop_first()) - letter_value(s[0])
    } else {
        numeral_value(s.drop_first()) + letter_value(s[0])
    }
}

proof fn lemma_first_symbol(m: int, k: int)
    requires
        m > 0,
        0 <= k < TABLE_LEN,
    ensures
        roman_from(m, k).len() > 0,
        exists|j: int| k <= j < TABLE_LEN && roman_from(m, k)[0] == #[trigger] table_symbol(j)[0],
    decreases TABLE_LEN - k, m,
{
    if m >= table_value(k) {
        assert(roman_from(m, k)[0] == table_symbol(k)[0]);
    } else {
        lemma_first_symbol(m, k + 1);
        let j = choose|j: int| k + 1 <= j < TABLE_LEN && roman_from(m, k + 1)[0] == #[trigger] table_symbol(j)[0];
        assert(roman_from(m, k)[0] == table_symbol(j)[0]);
    }
}

proof fn lemma_numeral_value_greedy(m: int, k: int)
    requires
        m >= 0,
        0 <= k < TABLE_LEN,
    ensures
        numeral_value(roman_from(m, k)) == m,
    decreases TABLE_LEN - k, m,
{
    if m > 0 {
        if m >= table_value(k) {
            let rest = roman_from(m - table_value(k), k);
            lemma_numeral_value_greedy(m - table_value(k), k);
            let sym = table_symbol(k);
            let whole = sym + rest;
            assert(roman_from(m, k) == whole);
            if rest.len() > 0 {
                lemma_first_symbol(m - table_value(k), k);
                let j = choose|j: int| k <= j < TABLE_LEN && rest[0] == #[trigger] table_symbol(j)[0];
                assert(letter_value(rest[0]) <= letter_value(sym.last()));
            }
            if sym.len() == 1 {
                assert(whole.drop_first() == rest);
                assert(whole[0] == sym[0]);
                assert(letter_value(sym[0]) == table_value(k));
                if rest.len() > 0 {
                    assert(whole[1] == rest[0]);
                }
                assert(numeral_value(whole) == numeral_value(rest) + letter_value(sym[0]));
            } else {
                let tail = seq![sym[1]] + rest;
                assert(whole.drop_first() == tail);
                assert(tail.drop_first() == rest);
                assert(whole[0] == sym[0] && whole[1] == sym[1]);
                assert(letter_value(sym[0]) < letter_value(sym[1]));
                assert(letter_value(sym[1]) - letter_value(sym[0]) == table_value(k));
                assert(tail[0] == sym[1]);
                if rest.len() > 0 {
                    assert(tail[1] == rest[0]);
                }
                assert(numeral_value(tail) == numeral_value(rest) + letter_value(sym[1]));
                assert(numeral_value(whole) == numeral_value(tail) - letter_value(sym[0]));
            }
        } else {
            lemma_numeral_value_greedy(m, k + 1);
        }
    }
}

/// Every Roman numeral the clock writes reads back as the number it was
/// written for.
pub proof fn lemma_roman_reads_back(n: int)
    requires
        n >= 1,
    ensures
        numeral_value(roman(n)) == n,
{
    lemma_numeral_value_greedy(n, 0);
}


proof fn lemma_longest_in_covers(lo: int, hi: int, v: int)
    requires
        lo <= v < hi,
    ensures
        roman(v).len() <= longest_in(lo, hi),
    decreases hi - lo,
{
    if lo < v {
        lemma_longest_in_covers(lo + 1, hi, v);
    }
}

/// The face is sized for every numeral it can show: no numeral on the face
/// is longer than `longest_numeral`, so the block keeps its size as the
/// time changes.
pub proof fn lemma_numerals_within_longest(now: LocalTime, cfg: Config)
    requires
        now.wf(),
    ensures
        roman(display_hour(now.hour as int, cfg.hour12)).len() <= longest_numeral(cfg.hour12),
        roman(now.minute as int).len() <= longest_numeral(cfg.hour12),
        roman(roman_second(now.second as int, cfg.second_step)).len() <= longest_numeral(cfg.hour12),
{
    let h = display_hour(now.hour as int, cfg.hour12);
    if cfg.hour12 {
        lemma_longest_in_covers(1, 13, h);
    } else {
        lemma_longest_in_covers(0, 24, h);
    }
    lemma_longest_in_covers(0, 60, now.minute as int);
    let st: int = if cfg.second_step < 5 {
        5
    } else {
        cfg.second_step as int
    };
    let sec = now.second as int;
    assert(0 <= sec / st * st <= sec) by (nonlinear_arith)
        requires st >= 1, 0 <= sec;
    lemma_longest_in_covers(0, 60, roman_second(sec, cfg.second_step));
}


/// Seconds advance in steps: a moment shows the same numerals as the start
/// of its step (its second rounded down to a multiple of the step, at least
/// five seconds).
pub proof fn lemma_numerals_stepped(now: LocalTime, cfg: Config, later: LocalTime)
    requires
        later.hour == now.hour,
        later.minute == now.minute,
        now.second == roman_second(later.second as int, cfg.second_step),
    ensures
        numeral_parts(now, cfg) == numeral_parts(later, cfg),
{
    let st: int = if cfg.second_step < 5 {
        5
    } else {
        cfg.second_step as int
    };
    let q = later.second as int / st;
    assert(q * st / st == q) by (nonlinear_arith)
        requires st > 0;
    assert(roman_second(now.second as int, cfg.second_step) == roman_second(later.second as int, cfg.second_step));
}

/// "N", the numeral for nothing, reads as zero.
proof fn lemma_nulla_reads_zero()
    ensures
        numeral_value(seq!['N']) == 0,
{
    let n = seq!['N'];
    assert(n.drop_first() =~= Seq::<char>::empty());
    assert(numeral_value(Seq::<char>::empty()) == 0);
    assert(n.len() == 1 && n[0] == 'N');
    assert(letter_value('N') == 0);
    assert(numeral_value(n) == numeral_value(n.drop_first()) + letter_value(n[0]));
}

/// The numerals read back the time shown: the first is the hour (on a
/// 12-hour clock a number from 1 to 12 on the same place of the dial, so
/// noon and midnight read XII and never N), the second the minute, and when
/// seconds are shown the third a second at most the step (at least five)
/// before the current one, on a multiple of the step.
pub proof fn lemma_numerals_read_time(now: LocalTime, cfg: Config)
    requires
        now.wf(),
    ensures
        ({
            let ps = numeral_parts(now, cfg);
            let h = numeral_value(ps[0]);
            let st: int = if cfg.second_step < 5 { 5 } else { cfg.second_step as int };
            &&& ps.len() == (if cfg.show_seconds { 3int } else { 2int })
            &&& cfg.hour12 ==> 1 <= h <= 12 && h % 12 == now.hour % 12 && ps[0] != seq!['N']
            &&& !cfg.hour12 ==> h == now.hour
            &&& numeral_value(ps[1]) == now.minute
            &&& cfg.show_seconds ==> {
                let sec = numeral_value(ps[2]);
                &&& sec <= now.second < sec + st
                &&& sec % st == 0
            }
        }),
{
    let h = display_hour(now.hour as int, cfg.hour12);
    lemma_display_hour(now.hour as int, cfg.hour12);
    lemma_nulla_reads_zero();
    if h >= 1 {
        lemma_roman_reads_back(h);
    }
    if now.minute >= 1 {
        lemma_roman_reads_back(now.minute as int);
    }
    if cfg.hour12 {
        assert(roman(h) != seq!['N']) by {
            assert(numeral_value(roman(h)) == h);
        }
    }
    if cfg.show_seconds {
        let st: int = if cfg.second_step < 5 { 5 } else { cfg.second_step as int };
        let s0: int = now.second as int;
        let sec = roman_second(s0, cfg.second_step);
        assert(0 <= s0 / st * st <= s0 < s0 / st * st + st) by (nonlinear_arith)
            requires st >= 1, s0 >= 0;
        assert((s0 / st * st) % st == 0) by (nonlinear_arith)
            requires st >= 1, s0 >= 0;
        if sec >= 1 {
            lemma_roman_reads_back(sec);
        }
    }
}

} // verus!
