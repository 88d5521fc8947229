//! "TEN PAST FOUR" word clock, rounded to the nearest 5 minutes. Drawing
//! the words in big letters is left to the vector font.

use vstd::prelude::*;
use crate::time::LocalTime;

verus! {

pub open spec fn hour_word(i: int) -> Seq<char> {
    if i == 0 {
        "TWELVE"@
    } else if i == 1 {
        "ONE"@
    } else if i == 2 {
        "TWO"@
    } else if i == 3 {
        "THREE"@
    } else if i == 4 {
        "FOUR"@
    } else if i == 5 {
        "FIVE"@
    } else if i == 6 {
        "SIX"@
    } else if i == 7 {
        "SEVEN"@
    } else if i == 8 {
        "EIGHT"@
    } else if i == 9 {
        "NINE"@
    } else if i == 10 {
        "TEN"@
    } else {
        "ELEVEN"@
    }
}

fn hour_name(i: usize) -> (s: &'static str)
    requires
        i < 12,
    ensures
        s@ == hour_word(i as int),
{
    if i == 0 {
        "TWELVE"
    } else if i == 1 {
        "ONE"
    } else if i == 2 {
        "TWO"
    } else if i == 3 {
        "THREE"
    } else if i == 4 {
        "FOUR"
    } else if i == 5 {
        "FIVE"
    } else if i == 6 {
        "SIX"
    } else if i == 7 {
        "SEVEN"
    } else if i == 8 {
        "EIGHT"
    } else if i == 9 {
        "NINE"
    } else if i == 10 {
        "TEN"
    } else {
        "ELEVEN"
    }
}

/// Minutes past twelve o'clock on a 12-hour dial, rounded to the nearest
/// five (halfway rounds up), wrapping at twelve hours.
pub open spec fn rounded_minutes(hour: int, minute: int) -> int {
    ((hour % 12) * 60 + minute + 2) / 5 * 5 % 720
}

/// The words before the hour, for a rounded minute `m` (a multiple of 5).
pub open spec fn lead_words(m: int) -> Seq<Seq<char>> {
    if m == 5 {
        seq!["FIVE"@, "PAST"@]
    } else if m == 10 {
        seq!["TEN"@, "PAST"@]
    } else if m == 15 {
        seq!["QUARTER"@, "PAST"@]
    } else if m == 20 {
        seq!["TWENTY"@, "PAST"@]
    } else if m == 25 {
        seq!["TWENTYFIVE"@, "PAST"@]
    } else if m == 30 {
        seq!["HALF"@, "PAST"@]
    } else if m == 35 {
        seq!["TWENTYFIVE"@, "TO"@]
    } else if m == 40 {
        seq!["TWENTY"@, "TO"@]
    } else if m == 45 {
        seq!["QUARTER"@, "TO"@]
    } else if m == 50 {
        seq!["TEN"@, "TO"@]
    } else if m == 55 {
        seq!["FIVE"@, "TO"@]
    } else {
        Seq::empty()
    }
}

/// The time in words, one word per line: "FIVE PAST FOUR", "QUARTER TO
/// ONE", or "FOUR OCLOCK" on the hour.
pub open spec fn phrase_words(hour: int, minute: int) -> Seq<Seq<char>> {
    let r = rounded_minutes(hour, minute);
    let hi = (r / 60) % 12;
    let m = r % 60;
    if m == 0 {
        seq![hour_word(hi), "OCLOCK"@]
    } else if m <= 30 {
        lead_words(m) + seq![hour_word(hi)]
    } else {
        lead_words(m) + seq![hour_word((hi + 1) % 12)]
    }
}

/// The time in words, as a list of lines.
pub fn phrase(now: &LocalTime) -> (lines: Vec<String>)
    requires
        now.wf(),
    ensures
        lines@.map_values(|s: String| s@) == phrase_words(now.hour as int, now.minute as int),
{
    let base_hour = now.hour % 12;
    let total = base_hour * 60 + now.minute;
    let rounded = (total + 2) / 5 * 5 % 720;
    let hour_idx = (rounded / 60) as usize % 12;
    let next_idx = (hour_idx + 1) % 12;
    let m = rounded % 60;
    assert(m % 5 == 0) by (nonlinear_arith)
        requires m == rounded % 60, rounded == (total + 2) / 5 * 5 % 720;
    let (first, second, hour): (&str, &str, &str) = if m == 0 {
        ("", "", hour_name(hour_idx))
    } else if m == 5 {
        ("FIVE", "PAST", hour_name(hour_idx))
    } else if m == 10 {
        ("TEN", "PAST", hour_name(hour_idx))
    } else if m == 15 {
        ("QUARTER", "PAST", hour_name(hour_idx))
    } else if m == 20 {
        ("TWENTY", "PAST", hour_name(hour_idx))
    } else if m == 25 {
        ("TWENTYFIVE", "PAST", hour_name(hour_idx))
    } else if m == 30 {
        ("HALF", "PAST", hour_name(hour_idx))
    } else if m == 35 {
        ("TWENTYFIVE", "TO", hour_name(next_idx))
    } else if m == 40 {
        ("TWENTY", "TO", hour_name(next_idx))
    } else if m == 45 {
        ("QUARTER", "TO", hour_name(next_idx))
    } else if m == 50 {
        ("TEN", "TO", hour_name(next_idx))
    } else {
        ("FIVE", "TO", hour_name(next_idx))
    };
    let mut lines: Vec<String> = Vec::new();
    if m != 0 {
        lines.push(String::from_str(first));
        lines.push(String::from_str(second));
    }
    lines.push(String::from_str(hour));
    if lines.len() == 1 {
        lines.push(String::from_str("OCLOCK"));
    }
    proof {
        assert(lines@.map_values(|s: String| s@) =~= phrase_words(now.hour as int, now.minute as int));
    }
    lines
}

/// The phrase names the time to the nearest five minutes: the rounded time
/// is a multiple of five minutes, at most two minutes before or after the
/// actual time on the twelve-hour dial.
pub proof fn lemma_nearest_five(hour: int, minute: int)
    requires
        0 <= hour < 24,
        0 <= minute < 60,
    ensures
        rounded_minutes(hour, minute) % 5 == 0,
        0 <= rounded_minutes(hour, minute) < 720,
        ({
            let t = (hour % 12) * 60 + minute;
            let r = rounded_minutes(hour, minute);
            (t - 2 <= r <= t + 2) || (t >= 718 && r == 0)
        }),
{
    let t = (hour % 12) * 60 + minute;
    let q = (t + 2) / 5 * 5;
    assert(t - 2 <= q <= t + 2) by (nonlinear_arith)
        requires q == (t + 2) / 5 * 5, t >= 0;
    assert(q % 5 == 0) by (nonlinear_arith)
        requires q == (t + 2) / 5 * 5, t >= 0;
}


/// The hour a word names on the dial (TWELVE is 0), or -1 for any other word.
pub open spec fn hour_number(w: Seq<char>) -> int {
    if w == "TWELVE"@ {
        0
    } else if w == "ONE"@ {
        1
    } else if w == "TWO"@ {
        2
    } else if w == "THREE"@ {
        3
    } else if w == "FOUR"@ {
        4
    } else if w == "FIVE"@ {
        5
    } else if w == "SIX"@ {
        6
    } else if w == "SEVEN"@ {
        7
    } else if w == "EIGHT"@ {
        8
    } else if w == "NINE"@ {
        9
    } else if w == "TEN"@ {
        10
    } else if w == "ELEVEN"@ {
        11
    } else {
        -1
    }
}

/// The minutes a leading word names, or -1 for any other word.
pub open spec fn lead_minutes(w: Seq<char>) -> int {
    if w == "FIVE"@ {
        5
    } else if w == "TEN"@ {
        10
    } else if w == "QUARTER"@ {
        15
    } else if w == "TWENTY"@ {
        20
    } else if w == "TWENTYFIVE"@ {
        25
    } else if w == "HALF"@ {
        30
    } else {
        -1
    }
}

/// The time a phrase names, in minutes past twelve on the 12-hour dial:
/// "H OCLOCK", "L PAST H" (L up to half an hour) or "L TO H" (L up to
/// twenty-five minutes, before the hour H); -1 when the words are no such
/// phrase.
pub open spec fn phrase_time(ws: Seq<Seq<char>>) -> int {
    if ws.len() == 2 && ws[1] == "OCLOCK"@ && hour_number(ws[0]) >= 0 {
        hour_number(ws[0]) * 60
    } else if ws.len() == 3 && ws[1] == "PAST"@ && hour_number(ws[2]) >= 0 && lead_minutes(ws[0]) >= 5 {
        hour_number(ws[2]) * 60 + lead_minutes(ws[0])
    } else if ws.len() == 3 && ws[1] == "TO"@ && hour_number(ws[2]) >= 0 && 5 <= lead_minutes(ws[0]) <= 25 {
        (hour_number(ws[2]) * 60 - lead_minutes(ws[0]) + 720) % 720
    } else {
        -1
    }
}

/// Two texts differ when their lengths or their characters at `k` do.
proof fn lemma_word_differs(a: Seq<char>, b: Seq<char>, k: int)
    requires
        a.len() != b.len() || (0 <= k < a.len() && k < b.len() && a[k] != b[k]),
    ensures
        a != b,
{
}

proof fn lemma_hour_number(i: int)
    requires
        0 <= i < 12,
    ensures
        hour_number(hour_word(i)) == i,
{
    reveal_strlit("TWELVE");
    reveal_strlit("ONE");
    reveal_strlit("TWO");
    reveal_strlit("THREE");
    reveal_strlit("FOUR");
    reveal_strlit("FIVE");
    reveal_strlit("SIX");
    reveal_strlit("SEVEN");
    reveal_strlit("EIGHT");
    reveal_strlit("NINE");
    reveal_strlit("TEN");
    reveal_strlit("ELEVEN");
    let w = hour_word(i);
    if i == 0 {
    }
    if i == 1 {
        lemma_word_differs(w, "TWELVE"@, 0);
    }
    if i == 2 {
        lemma_word_differs(w, "TWELVE"@, 0);
        lemma_word_differs(w, "ONE"@, 0);
    }
    if i == 3 {
        lemma_word_differs(w, "TWELVE"@, 0);
        lemma_word_differs(w, "ONE"@, 0);
        lemma_word_differs(w, "TWO"@, 0);
    }
    if i == 4 {
        lemma_word_differs(w, "TWELVE"@, 0);
        lemma_word_differs(w, "ONE"@, 0);
        lemma_word_differs(w, "TWO"@, 0);
        lemma_word_differs(w, "THREE"@, 0);
    }
    if i == 5 {
        lemma_word_differs(w, "TWELVE"@, 0);
        lemma_word_differs(w, "ONE"@, 0);
        lemma_word_differs(w, "TWO"@, 0);
        lemma_word_differs(w, "THREE"@, 0);
        lemma_word_differs(w, "FOUR"@, 1);
    }
    if i == 6 {
        lemma_word_differs(w, "TWELVE"@, 0);
        lemma_word_differs(w, "ONE"@, 0);
        lemma_word_differs(w, "TWO"@, 0);
        lemma_word_differs(w, "THREE"@, 0);
        lemma_word_differs(w, "FOUR"@, 0);
        lemma_word_differs(w, "FIVE"@, 0);
    }
    if i == 7 {
        lemma_word_differs(w, "TWELVE"@, 0);
        lemma_word_differs(w, "ONE"@, 0);
        lemma_word_differs(w, "TWO"@, 0);
        lemma_word_differs(w, "THREE"@, 0);
        lemma_word_differs(w, "FOUR"@, 0);
        lemma_word_differs(w, "FIVE"@, 0);
        lemma_word_differs(w, "SIX"@, 0);
    }
    if i == 8 {
        lemma_word_differs(w, "TWELVE"@, 0);
        lemma_word_differs(w, "ONE"@, 0);
        lemma_word_differs(w, "TWO"@, 0);
        lemma_word_differs(w, "THREE"@, 0);
        lemma_word_differs(w, "FOUR"@, 0);
        lemma_word_differs(w, "FIVE"@, 0);
        lemma_word_differs(w, "SIX"@, 0);
        lemma_word_differs(w, "SEVEN"@, 0);
    }
    if i == 9 {
        lemma_word_differs(w, "TWELVE"@, 0);
        lemma_word_differs(w, "ONE"@, 0);
        lemma_word_differs(w, "TWO"@, 0);
        lemma_word_differs(w, "THREE"@, 0);
        lemma_word_differs(w, "FOUR"@, 0);
        lemma_word_differs(w, "FIVE"@, 0);
        lemma_word_differs(w, "SIX"@, 0);
        lemma_word_differs(w, "SEVEN"@, 0);
        lemma_word_differs(w, "EIGHT"@, 0);
    }
    if i == 10 {
        lemma_word_differs(w, "TWELVE"@, 0);
        lemma_word_differs(w, "ONE"@, 0);
        lemma_word_differs(w, "TWO"@, 1);
        lemma_word_differs(w, "THREE"@, 0);
        lemma_word_differs(w, "FOUR"@, 0);
        lemma_word_differs(w, "FIVE"@, 0);
        lemma_word_differs(w, "SIX"@, 0);
        lemma_word_differs(w, "SEVEN"@, 0);
        lemma_word_differs(w, "EIGHT"@, 0);
        lemma_word_differs(w, "NINE"@, 0);
    }
    if i == 11 {
        lemma_word_differs(w, "TWELVE"@, 0);
        lemma_word_differs(w, "ONE"@, 0);
        lemma_word_differs(w, "TWO"@, 0);
        lemma_word_differs(w, "THREE"@, 0);
        lemma_word_differs(w, "FOUR"@, 0);
        lemma_word_differs(w, "FIVE"@, 0);
        lemma_word_differs(w, "SIX"@, 0);
        lemma_word_differs(w, "SEVEN"@, 0);
        lemma_word_differs(w, "EIGHT"@, 0);
        lemma_word_differs(w, "NINE"@, 0);
        lemma_word_differs(w, "TEN"@, 0);
    }
}

proof fn lemma_lead(m: int)
    requires
        0 < m < 60,
        m % 5 == 0,
    ensures
        lead_words(m).len() == 2,
        m <= 30 ==> lead_minutes(lead_words(m)[0]) == m && lead_words(m)[1] == "PAST"@,
        m > 30 ==> lead_minutes(lead_words(m)[0]) == 60 - m && lead_words(m)[1] == "TO"@,
{
    reveal_strlit("FIVE");
    reveal_strlit("TEN");
    reveal_strlit("QUARTER");
    reveal_strlit("TWENTY");
    reveal_strlit("TWENTYFIVE");
    reveal_strlit("HALF");
    reveal_strlit("PAST");
    reveal_strlit("TO");
    reveal_strlit("OCLOCK");
    let w = lead_words(m)[0];
    if m == 5 {
    }
    if m == 10 {
        lemma_word_differs(w, "FIVE"@, 0);
    }
    if m == 15 {
        lemma_word_differs(w, "FIVE"@, 0);
        lemma_word_differs(w, "TEN"@, 0);
    }
    if m == 20 {
        lemma_word_differs(w, "FIVE"@, 0);
        lemma_word_differs(w, "TEN"@, 0);
        lemma_word_differs(w, "QUARTER"@, 0);
    }
    if m == 25 {
        lemma_word_differs(w, "FIVE"@, 0);
        lemma_word_differs(w, "TEN"@, 0);
        lemma_word_differs(w, "QUARTER"@, 0);
        lemma_word_differs(w, "TWENTY"@, 0);
    }
    if m == 30 {
        lemma_word_differs(w, "FIVE"@, 0);
        lemma_word_differs(w, "TEN"@, 0);
        lemma_word_differs(w, "QUARTER"@, 0);
        lemma_word_differs(w, "TWENTY"@, 0);
        lemma_word_differs(w, "TWENTYFIVE"@, 0);
    }
    if m == 35 {
        lemma_word_differs(w, "FIVE"@, 0);
        lemma_word_differs(w, "TEN"@, 0);
        lemma_word_differs(w, "QUARTER"@, 0);
        lemma_word_differs(w, "TWENTY"@, 0);
    }
    if m == 40 {
        lemma_word_differs(w, "FIVE"@, 0);
        lemma_word_differs(w, "TEN"@, 0);
        lemma_word_differs(w, "QUARTER"@, 0);
    }
    if m == 45 {
        lemma_word_differs(w, "FIVE"@, 0);
        lemma_word_differs(w, "TEN"@, 0);
    }
    if m == 50 {
        lemma_word_differs(w, "FIVE"@, 0);
    }
    if m == 55 {
    }
}

/// The phrase names the rounded time: read back (the hour word's hour, plus
/// the leading words' minutes after PAST, less them before TO), it is the
/// time rounded to the nearest five minutes on the twelve-hour dial.
pub proof fn lemma_phrase_reads_back(hour: int, minute: int)
    requires
        0 <= hour < 24,
        0 <= minute < 60,
    ensures
        phrase_time(phrase_words(hour, minute)) == ((hour % 12) * 60 + minute + 2) / 5 * 5 % 720,
{
    reveal_strlit("PAST");
    reveal_strlit("TO");
    reveal_strlit("OCLOCK");
    lemma_nearest_five(hour, minute);
    let r = rounded_minutes(hour, minute);
    let hi = (r / 60) % 12;
    let m = r % 60;
    assert(r / 60 < 12);
    assert(m % 5 == 0);
    lemma_hour_number(hi);
    lemma_hour_number((hi + 1) % 12);
    lemma_word_differs("PAST"@, "OCLOCK"@, 0);
    lemma_word_differs("TO"@, "OCLOCK"@, 0);
    lemma_word_differs("TO"@, "PAST"@, 0);
    let ws = phrase_words(hour, minute);
    if m == 0 {
        assert(ws[1] == "OCLOCK"@);
    } else {
        lemma_lead(m);
        assert(ws[0] == lead_words(m)[0]);
        assert(ws[1] == lead_words(m)[1]);
        assert(ws.len() == 3);
    }
}

} // verus!
