//! The moment a face shows, as the plain values the faces read.

use vstd::prelude::*;
use crate::text::push_char;

verus! {

/// The local wall-clock time of a frame.
pub struct LocalTime {
    /// Hour of the day, 0-23.
    pub hour: u32,
    /// Minute, 0-59.
    pub minute: u32,
    /// Second, 0-59.
    pub second: u32,
    /// Milliseconds since the Unix epoch.
    pub millis: i64,
    /// Today's date written out, e.g. "Friday, August 14 2026".
    pub date_text: String,
}

impl LocalTime {
    pub open spec fn wf(&self) -> bool {
        self.hour < 24 && self.minute < 60 && self.second < 60
    }
}

/// The hour shown by a 12-hour clock: 12, 1, ..., 11.
pub open spec fn hour_of_12(hour: int) -> int {
    if hour % 12 == 0 {
        12
    } else {
        hour % 12
    }
}

/// The hour shown: the 12-hour form when `hour12`, else the 24-hour one.
pub open spec fn display_hour(hour: int, hour12: bool) -> int {
    if hour12 {
        hour_of_12(hour)
    } else {
        hour
    }
}

pub fn shown_hour(hour: u32, hour12: bool) -> (h: u32)
    requires
        hour < 24,
    ensures
        h == display_hour(hour as int, hour12),
        h < 24,
{
    if hour12 {
        let h = hour % 12;
        if h == 0 {
            12
        } else {
            h
        }
    } else {
        hour
    }
}

/// Integer division rounding toward zero, as Rust's `/` does.
pub open spec fn trunc_div(x: int, d: int) -> int {
    if x >= 0 {
        x / d
    } else {
        -((-x) / d)
    }
}

/// The remainder that goes with `trunc_div`, as Rust's `%` gives it.
pub open spec fn trunc_rem(x: int, d: int) -> int {
    x - d * trunc_div(x, d)
}

/// The character of a decimal digit.
pub open spec fn digit_char(d: int) -> char {
    (('0' as int) + d) as char
}

/// `n` written with at least two digits, as `{:02}` writes it.
pub open spec fn two_digits(n: int) -> Seq<char> {
    seq![digit_char(n / 10), digit_char(n % 10)]
}

pub fn digit(d: u32) -> (c: char)
    requires
        d < 10,
    ensures
        c == digit_char(d as int),
{
    let b: u8 = 48u8 + d as u8;
    b as char
}

/// Appends `n` as two digits.
pub fn push_two_digits(s: &mut String, n: u32)
    requires
        n < 100,
    ensures
        final(s)@ == old(s)@ + two_digits(n as int),
{
    push_char(s, digit(n / 10));
    push_char(s, digit(n % 10));
}


/// The number two decimal digits at `i` and `i + 1` of `s` write.
pub open spec fn two_digit_value(s: Seq<char>, i: int) -> int {
    (s[i] as int - '0' as int) * 10 + (s[i + 1] as int - '0' as int)
}

/// Whether `c` is a decimal digit.
pub open spec fn is_decimal(c: char) -> bool {
    '0' <= c && c <= '9'
}

/// Two digits read back as the number they were written for.
pub proof fn lemma_two_digits_read(n: int)
    requires
        0 <= n < 100,
    ensures
        two_digit_value(two_digits(n), 0) == n,
        is_decimal(two_digits(n)[0]),
        is_decimal(two_digits(n)[1]),
{
    assert(0 <= n / 10 < 10 && 0 <= n % 10 < 10);
}

/// A 12-hour clock shows an hour from 1 to 12 on the same place of the dial
/// (noon and midnight both show 12); a 24-hour clock shows the hour itself.
pub proof fn lemma_display_hour(hour: int, hour12: bool)
    requires
        0 <= hour < 24,
    ensures
        hour12 ==> 1 <= display_hour(hour, hour12) <= 12 && display_hour(hour, hour12) % 12 == hour % 12,
        !hour12 ==> display_hour(hour, hour12) == hour,
{
}

} // verus!
