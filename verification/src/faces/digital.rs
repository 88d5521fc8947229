//! The digital face's text: the time as HH:MM(:SS), which characters are
//! colons (so they can blink), and the am/pm tag.

use vstd::prelude::*;
use crate::config::{Config, effective_step, stepped};
use crate::time::{
    LocalTime, display_hour, two_digits, trunc_div, trunc_rem, shown_hour, push_two_digits, two_digit_value,
    is_decimal, lemma_two_digits_read, lemma_display_hour,
};
use crate::text::push_char;

verus! {

/// The clock text for `now`: hour and minute, and the seconds (stepped)
/// when they are shown.
pub open spec fn clock_text(now: LocalTime, cfg: Config) -> Seq<char> {
    let hm = two_digits(display_hour(now.hour as int, cfg.hour12)) + seq![':'] + two_digits(now.minute as int);
    if cfg.show_seconds {
        hm + seq![':'] + two_digits(stepped(now.second as int, effective_step(cfg.second_step)))
    } else {
        hm
    }
}

/// "AM" or "PM" on a 12-hour clock, nothing on a 24-hour one.
pub open spec fn am_pm(now: LocalTime, cfg: Config) -> Seq<char> {
    if cfg.hour12 {
        if now.hour < 12 {
            "AM"@
        } else {
            "PM"@
        }
    } else {
        ""@
    }
}

/// The clock text plus which character positions are colons, and the
/// am/pm tag.
pub fn time_text(now: &LocalTime, cfg: &Config) -> (r: (String, Vec<usize>, &'static str))
    requires
        now.wf(),
    ensures
        r.0@ == clock_text(*now, *cfg),
        r.1@ == (if cfg.show_seconds { seq![2usize, 5usize] } else { seq![2usize] }),
        r.2@ == am_pm(*now, *cfg),
{
    let hour = shown_hour(now.hour, cfg.hour12);
    let suffix = if cfg.hour12 {
        if now.hour < 12 {
            "AM"
        } else {
            "PM"
        }
    } else {
        ""
    };
    let mut text = String::new();
    push_two_digits(&mut text, hour);
    push_char(&mut text, ':');
    push_two_digits(&mut text, now.minute);
    let mut colons: Vec<usize> = Vec::new();
    colons.push(2);
    if cfg.show_seconds {
        push_char(&mut text, ':');
        push_two_digits(&mut text, cfg.step_second(now.second));
        colons.push(5);
    }
    (text, colons, suffix)
}

/// The colons are hidden during the first half of every second.
pub open spec fn blink_off_phase(millis: int) -> bool {
    trunc_rem(trunc_div(millis, 500), 2) == 0
}

/// Which of `len` glyphs are blanked: the colon positions, when blinking is
/// on and the colon is in its hidden half-second.
pub fn blink_mask(now: &LocalTime, cfg: &Config, len: usize, colons: &Vec<usize>) -> (mask: Vec<bool>)
    ensures
        mask@.len() == len,
        forall|i: int|
            0 <= i < len ==> #[trigger] mask@[i] == (cfg.blink_colon && blink_off_phase(now.millis as int)
                && colons@.contains(i as usize)),
{
    let mut mask: Vec<bool> = Vec::new();
    let mut k: usize = 0;
    while k < len
        invariant
            k <= len,
            mask@.len() == k,
            forall|i: int| 0 <= i < k ==> !mask@[i],
        decreases len - k,
    {
        mask.push(false);
        k += 1;
    }
    let half = now.millis.checked_div(500).unwrap();
    let phase = half.checked_rem(2).unwrap();
    if cfg.blink_colon && phase == 0 {
        let n = colons.len();
        let mut j: usize = 0;
        while j < n
            invariant
                n == colons@.len(),
                j <= n,
                mask@.len() == len,
                forall|i: int|
                    0 <= i < len ==> #[trigger] mask@[i] == colons@.subrange(0, j as int).contains(i as usize),
            decreases n - j,
        {
            let pos = colons[j];
            if pos < mask.len() {
                mask.set(pos, true);
            }
            assert forall|i: int| 0 <= i < len implies #[trigger] mask@[i] == colons@.subrange(0, j + 1).contains(i as usize) by {
                assert(colons@.subrange(0, j + 1) == colons@.subrange(0, j as int).push(pos));
                if colons@.subrange(0, j as int).contains(i as usize) {
                    let w = choose|w: int| 0 <= w < j && colons@.subrange(0, j as int)[w] == i as usize;
                    assert(colons@.subrange(0, j + 1)[w] == i as usize);
                }
                if i as usize == pos {
                    assert(colons@.subrange(0, j + 1)[j as int] == pos);
                }
            }
            j += 1;
        }
        assert(colons@.subrange(0, n as int) == colons@);
    }
    mask
}

/// The positions `time_text` reports as colons hold colons.
pub proof fn lemma_colons_are_colons(now: LocalTime, cfg: Config)
    ensures
        clock_text(now, cfg)[2] == ':',
        cfg.show_seconds ==> clock_text(now, cfg)[5] == ':',
        clock_text(now, cfg).len() == (if cfg.show_seconds { 8int } else { 5int }),
{
}


/// The time written out in full under a face: HH:MM:SS, with " AM" or
/// " PM" on a 12-hour clock.
pub open spec fn full_time(now: LocalTime, cfg: Config) -> Seq<char> {
    let hms = two_digits(display_hour(now.hour as int, cfg.hour12)) + seq![':'] + two_digits(now.minute as int)
        + seq![':'] + two_digits(now.second as int);
    if cfg.hour12 {
        hms + seq![' '] + am_pm(now, cfg)
    } else {
        hms
    }
}

/// The time written out in full, as the analog and word faces show it
/// beneath themselves.
pub fn full_time_text(now: &LocalTime, cfg: &Config) -> (s: String)
    requires
        now.wf(),
    ensures
        s@ == full_time(*now, *cfg),
{
    let mut s = String::new();
    push_two_digits(&mut s, shown_hour(now.hour, cfg.hour12));
    push_char(&mut s, ':');
    push_two_digits(&mut s, now.minute);
    push_char(&mut s, ':');
    push_two_digits(&mut s, now.second);
    if cfg.hour12 {
        push_char(&mut s, ' ');
        if now.hour < 12 {
            push_char(&mut s, 'A');
        } else {
            push_char(&mut s, 'P');
        }
        push_char(&mut s, 'M');
        proof {
            reveal_strlit("AM");
            reveal_strlit("PM");
        }
    }
    assert(s@ =~= full_time(*now, *cfg));
    s
}


/// The clock text reads the time: its first two digits are the hour (on a
/// 12-hour clock 1 to 12 on the same place of the dial, so noon and
/// midnight show 12), the next two after the colon the minute, and when
/// seconds are shown the last two are a second at most `second_step` (at
/// least 1) before the current one, on a multiple of the step.
pub proof fn lemma_clock_text_reads_time(now: LocalTime, cfg: Config)
    requires
        now.wf(),
    ensures
        ({
            let t = clock_text(now, cfg);
            let h = two_digit_value(t, 0);
            &&& is_decimal(t[0]) && is_decimal(t[1]) && t[2] == ':'
            &&& is_decimal(t[3]) && is_decimal(t[4])
            &&& cfg.hour12 ==> 1 <= h <= 12 && h % 12 == now.hour % 12
            &&& !cfg.hour12 ==> h == now.hour
            &&& two_digit_value(t, 3) == now.minute
            &&& cfg.show_seconds ==> {
                let sec = two_digit_value(t, 6);
                let step = if cfg.second_step == 0 { 1int } else { cfg.second_step as int };
                &&& t.len() == 8 && t[5] == ':'
                &&& sec <= now.second < sec + step
                &&& sec % step == 0
            }
            &&& !cfg.show_seconds ==> t.len() == 5
        }),
{
    let dh = display_hour(now.hour as int, cfg.hour12);
    lemma_display_hour(now.hour as int, cfg.hour12);
    lemma_two_digits_read(dh);
    lemma_two_digits_read(now.minute as int);
    let t = clock_text(now, cfg);
    let hm = two_digits(dh) + seq![':'] + two_digits(now.minute as int);
    assert(t[0] == two_digits(dh)[0] && t[1] == two_digits(dh)[1]);
    assert(t[3] == two_digits(now.minute as int)[0] && t[4] == two_digits(now.minute as int)[1]);
    if cfg.show_seconds {
        let step: int = effective_step(cfg.second_step);
        let s0: int = now.second as int;
        let sec = stepped(s0, step);
        assert(step >= 1);
        assert(0 <= s0 / step * step <= s0 < s0 / step * step + step) by (nonlinear_arith)
            requires step >= 1, s0 >= 0;
        assert((s0 / step * step) % step == 0) by (nonlinear_arith)
            requires step >= 1, s0 >= 0;
        lemma_two_digits_read(sec);
        assert(t[6] == two_digits(sec)[0] && t[7] == two_digits(sec)[1]);
    }
}

/// The full time text reads the time: the hour first (on a 12-hour clock 1
/// to 12 on the same place of the dial), then the minute and the second,
/// then " AM" before noon or " PM" from noon on a 12-hour clock.
pub proof fn lemma_full_time_reads_time(now: LocalTime, cfg: Config)
    requires
        now.wf(),
    ensures
        ({
            let t = full_time(now, cfg);
            let h = two_digit_value(t, 0);
            &&& is_decimal(t[0]) && is_decimal(t[1]) && t[2] == ':' && t[5] == ':'
            &&& cfg.hour12 ==> 1 <= h <= 12 && h % 12 == now.hour % 12
            &&& !cfg.hour12 ==> h == now.hour
            &&& two_digit_value(t, 3) == now.minute
            &&& two_digit_value(t, 6) == now.second
            &&& cfg.hour12 ==> t.len() == 11 && t[8] == ' ' && t[10] == 'M'
                && (t[9] == 'A' <==> now.hour < 12) && (t[9] == 'P' <==> now.hour >= 12)
            &&& !cfg.hour12 ==> t.len() == 8
        }),
{
    let dh = display_hour(now.hour as int, cfg.hour12);
    lemma_display_hour(now.hour as int, cfg.hour12);
    lemma_two_digits_read(dh);
    lemma_two_digits_read(now.minute as int);
    lemma_two_digits_read(now.second as int);
    let t = full_time(now, cfg);
    assert(t[0] == two_digits(dh)[0] && t[1] == two_digits(dh)[1]);
    assert(t[3] == two_digits(now.minute as int)[0] && t[4] == two_digits(now.minute as int)[1]);
    assert(t[6] == two_digits(now.second as int)[0] && t[7] == two_digits(now.second as int)[1]);
    if cfg.hour12 {
        reveal_strlit("AM");
        reveal_strlit("PM");
    }
}

} // verus!
