//! Maps the color names used in the config file and on the command line to
//! terminal colors.

use vstd::prelude::*;
use crate::text::{
    lower_seq, trimmed, unsigned_value, all_digits, digits_value, digit_value, index_from, to_ascii_lowercase, trim, parse_unsigned,
    substring, str_eq, find_char, lemma_trim_fixed, lemma_normalised_fixed, unicode_white_space,
};

verus! {

/// A terminal color, with the same variants as the terminal backend's.
#[derive(Clone, Copy, Debug, PartialEq, Eq, Structural)]
pub enum Color {
    Reset,
    Black,
    DarkGrey,
    Red,
    DarkRed,
    Green,
    DarkGreen,
    Yellow,
    DarkYellow,
    Blue,
    DarkBlue,
    Magenta,
    DarkMagenta,
    Cyan,
    DarkCyan,
    White,
    Grey,
    Rgb { r: u8, g: u8, b: u8 },
    AnsiValue(u8),
}

/// The truecolor value that a 24-bit number stands for.
pub open spec fn rgb_of(v: int) -> Color {
    Color::Rgb { r: ((v / 65536) % 256) as u8, g: ((v / 256) % 256) as u8, b: (v % 256) as u8 }
}

/// `#rrggbb`: a `#` and then six hexadecimal digits.
pub open spec fn hex_color(n: Seq<char>) -> Option<Color> {
    if n.len() == 7 && n[0] == '#' && all_digits(n.drop_first(), 16) {
        Some(rgb_of(digits_value(n.drop_first(), 16)))
    } else {
        None
    }
}

/// `16` to the power `n`.
pub open spec fn pow16(n: nat) -> int
    decreases n,
{
    if n == 0 {
        1
    } else {
        16 * pow16((n - 1) as nat)
    }
}

proof fn lemma_hex_digits_bound(s: Seq<char>)
    requires
        all_digits(s, 16),
    ensures
        0 <= digits_value(s, 16) < pow16(s.len()),
    decreases s.len(),
{
    if s.len() > 0 {
        assert(all_digits(s.drop_last(), 16)) by {
            assert forall|i: int| 0 <= i < s.drop_last().len() implies (#[trigger] digit_value(
                s.drop_last()[i],
                16,
            )) is Some by {
                assert(digit_value(s[i], 16) is Some);
            }
        }
        lemma_hex_digits_bound(s.drop_last());
        assert(digit_value(s[s.len() - 1], 16) is Some);
    }
}

/// The comma-separated fields of `s`, when there are exactly three.
pub open spec fn three_fields(s: Seq<char>) -> Option<(Seq<char>, Seq<char>, Seq<char>)> {
    let i1 = index_from(s, ',', 0);
    let i2 = index_from(s, ',', i1 + 1);
    let i3 = index_from(s, ',', i2 + 1);
    if i1 < s.len() && i2 < s.len() && i3 == s.len() {
        Some((s.subrange(0, i1), s.subrange(i1 + 1, i2), s.subrange(i2 + 1, s.len() as int)))
    } else {
        None
    }
}

pub open spec fn byte_field(s: Seq<char>) -> Option<int> {
    unsigned_value(trimmed(s), 10, 255)
}

/// `rgb(r,g,b)`: three byte values, each optionally padded with whitespace.
pub open spec fn rgb_color(n: Seq<char>) -> Option<Color> {
    if n.len() >= 5 && n[0] == 'r' && n[1] == 'g' && n[2] == 'b' && n[3] == '(' && n.last() == ')' {
        match three_fields(n.subrange(4, n.len() - 1)) {
            Some((a, b, c)) => match (byte_field(a), byte_field(b), byte_field(c)) {
                (Some(r), Some(g), Some(bl)) => Some(Color::Rgb { r: r as u8, g: g as u8, b: bl as u8 }),
                _ => None,
            },
            None => None,
        }
    } else {
        None
    }
}

/// The built-in color names; anything else is white.
pub open spec fn named_color(n: Seq<char>) -> Color {
    if n == "black"@ {
        Color::Black
    } else if n == "red"@ {
        Color::Red
    } else if n == "green"@ {
        Color::Green
    } else if n == "yellow"@ {
        Color::Yellow
    } else if n == "blue"@ {
        Color::Blue
    } else if n == "magenta"@ || n == "purple"@ {
        Color::Magenta
    } else if n == "cyan"@ {
        Color::Cyan
    } else if n == "white"@ {
        Color::White
    } else if n == "gray"@ || n == "grey"@ {
        Color::DarkGrey
    } else if n == "dark_red"@ {
        Color::DarkRed
    } else if n == "dark_green"@ {
        Color::DarkGreen
    } else if n == "dark_yellow"@ || n == "orange"@ {
        Color::DarkYellow
    } else if n == "dark_blue"@ {
        Color::DarkBlue
    } else if n == "dark_magenta"@ {
        Color::DarkMagenta
    } else if n == "dark_cyan"@ {
        Color::DarkCyan
    } else {
        Color::White
    }
}

/// The color that a name stands for: the name is trimmed and lowercased,
/// then read as `#rrggbb`, as `rgb(r,g,b)`, or as a built-in name.
pub open spec fn color_named(name: Seq<char>) -> Color {
    let n = lower_seq(trimmed(name));
    match hex_color(n) {
        Some(c) => c,
        None => match rgb_color(n) {
            Some(c) => c,
            None => named_color(n),
        },
    }
}

fn hex_part(n: &str) -> (r: Option<Color>)
    ensures
        r == hex_color(n@),
{
    let len = n.unicode_len();
    if len == 7 && n.get_char(0) == '#' {
        let hex = substring(n, 1, 7);
        assert(hex@ == n@.drop_first());
        if hex.as_str().get_char(0) == '+' {
            assert(digit_value(hex@[0], 16) is None);
            return None;
        }
        proof {
            if all_digits(hex@, 16) {
                lemma_hex_digits_bound(hex@);
                reveal_with_fuel(pow16, 7);
            }
        }
        match parse_unsigned(hex.as_str(), 16, 0xffff_ffff) {
            Some(v) => {
                let hi = (v >> 16u64) & 0xff;
                let mid = (v >> 8u64) & 0xff;
                let lo = v & 0xff;
                assert(hi == (v / 65536) % 256 && mid == (v / 256) % 256 && lo == v % 256 && hi < 256 && mid
                    < 256 && lo < 256) by (bit_vector)
                    requires
                        hi == (v >> 16u64) & 0xff,
                        mid == (v >> 8u64) & 0xff,
                        lo == v & 0xff,
                ;
                let r = hi as u8;
                let g = mid as u8;
                let b = lo as u8;
                Some(Color::Rgb { r, g, b })
            },
            None => None,
        }
    } else {
        None
    }
}

fn byte_part(s: &str) -> (r: Option<u8>)
    ensures
        r matches Some(v) ==> byte_field(s@) == Some(v as int),
        r is None ==> byte_field(s@) is None,
{
    let t = trim(s);
    match parse_unsigned(t.as_str(), 10, 255) {
        Some(v) => Some(v as u8),
        None => None,
    }
}

fn rgb_part(n: &str) -> (r: Option<Color>)
    ensures
        r == rgb_color(n@),
{
    let len = n.unicode_len();
    if len >= 5 && n.get_char(0) == 'r' && n.get_char(1) == 'g' && n.get_char(2) == 'b' && n.get_char(3)
        == '(' && n.get_char(len - 1) == ')' {
        let inner = substring(n, 4, len - 1);
        let m = inner.unicode_len();
        let i1 = find_char(inner.as_str(), ',', 0);
        if i1 >= m {
            return None;
        }
        let i2 = find_char(inner.as_str(), ',', i1 + 1);
        if i2 >= m {
            return None;
        }
        let i3 = find_char(inner.as_str(), ',', i2 + 1);
        if i3 != m {
            return None;
        }
        let a = substring(inner.as_str(), 0, i1);
        let b = substring(inner.as_str(), i1 + 1, i2);
        let c = substring(inner.as_str(), i2 + 1, m);
        match (byte_part(a.as_str()), byte_part(b.as_str()), byte_part(c.as_str())) {
            (Some(r), Some(g), Some(bl)) => Some(Color::Rgb { r, g, b: bl }),
            _ => None,
        }
    } else {
        None
    }
}

fn named_part(n: &str) -> (c: Color)
    ensures
        c == named_color(n@),
{
    if str_eq(n, "black") {
        Color::Black
    } else if str_eq(n, "red") {
        Color::Red
    } else if str_eq(n, "green") {
        Color::Green
    } else if str_eq(n, "yellow") {
        Color::Yellow
    } else if str_eq(n, "blue") {
        Color::Blue
    } else if str_eq(n, "magenta") || str_eq(n, "purple") {
        Color::Magenta
    } else if str_eq(n, "cyan") {
        Color::Cyan
    } else if str_eq(n, "white") {
        Color::White
    } else if str_eq(n, "gray") || str_eq(n, "grey") {
        Color::DarkGrey
    } else if str_eq(n, "dark_red") {
        Color::DarkRed
    } else if str_eq(n, "dark_green") {
        Color::DarkGreen
    } else if str_eq(n, "dark_yellow") || str_eq(n, "orange") {
        Color::DarkYellow
    } else if str_eq(n, "dark_blue") {
        Color::DarkBlue
    } else if str_eq(n, "dark_magenta") {
        Color::DarkMagenta
    } else if str_eq(n, "dark_cyan") {
        Color::DarkCyan
    } else {
        Color::White
    }
}

/// Parses a color name. Accepts the standard ANSI names (plus "grey" as an
/// alias for "gray"), `#rrggbb` and `rgb(r,g,b)`; anything unrecognized is
/// white, so a typo in the config never stops the clock.
pub fn parse(name: &str) -> (c: Color)
    ensures
        c == color_named(name@),
{
    let t = trim(name);
    let n = to_ascii_lowercase(t.as_str());
    let s = n.as_str();
    match hex_part(s) {
        Some(c) => c,
        None => match rgb_part(s) {
            Some(c) => c,
            None => named_part(s),
        },
    }
}

/// The built-in color names, as `clock config colors` lists them.
pub open spec fn spec_names() -> Seq<Seq<char>> {
    seq![
        "black"@,
        "red"@,
        "green"@,
        "yellow"@,
        "blue"@,
        "magenta"@,
        "cyan"@,
        "white"@,
        "gray"@,
        "dark_red"@,
        "dark_green"@,
        "dark_yellow"@,
        "dark_blue"@,
        "dark_magenta"@,
        "dark_cyan"@,
        "#rrggbb (truecolor)"@,
    ]
}

pub fn names() -> (v: Vec<&'static str>)
    ensures
        v@.len() == spec_names().len(),
        forall|i: int| 0 <= i < v@.len() ==> (#[trigger] v@[i])@ == spec_names()[i],
{
    let v = vec![
        "black",
        "red",
        "green",
        "yellow",
        "blue",
        "magenta",
        "cyan",
        "white",
        "gray",
        "dark_red",
        "dark_green",
        "dark_yellow",
        "dark_blue",
        "dark_magenta",
        "dark_cyan",
        "#rrggbb (truecolor)",
    ];
    v
}


/// Two texts differ when their lengths or their characters at `k` do.
proof fn lemma_text_differs(a: Seq<char>, b: Seq<char>, k: int)
    requires
        a.len() != b.len() || (0 <= k < a.len() && k < b.len() && a[k] != b[k]),
    ensures
        a != b,
{
}

/// A name that is already lower case and has no whitespace at its ends
/// reads the same as itself after normalising.
proof fn lemma_plain_name(n: Seq<char>)
    requires
        n.len() > 0,
        !unicode_white_space(n[0]),
        !unicode_white_space(n.last()),
        forall|i: int| 0 <= i < n.len() ==> !('A' <= #[trigger] n[i] && n[i] <= 'Z'),
    ensures
        lower_seq(trimmed(n)) == n,
{
    lemma_trim_fixed(n);
    assert(lower_seq(n) =~= n);
}

/// The color of the `k`-th built-in name.
pub open spec fn builtin_color(k: int) -> Color {
    if k == 0 {
        Color::Black
    } else if k == 1 {
        Color::Red
    } else if k == 2 {
        Color::Green
    } else if k == 3 {
        Color::Yellow
    } else if k == 4 {
        Color::Blue
    } else if k == 5 {
        Color::Magenta
    } else if k == 6 {
        Color::Cyan
    } else if k == 7 {
        Color::White
    } else if k == 8 {
        Color::DarkGrey
    } else if k == 9 {
        Color::DarkRed
    } else if k == 10 {
        Color::DarkGreen
    } else if k == 11 {
        Color::DarkYellow
    } else if k == 12 {
        Color::DarkBlue
    } else if k == 13 {
        Color::DarkMagenta
    } else if k == 14 {
        Color::DarkCyan
    } else {
        Color::White
    }
}

/// Each built-in name, written as listed, is that color.
pub proof fn lemma_builtin_names(k: int)
    requires
        0 <= k < 15,
    ensures
        color_named(spec_names()[k]) == builtin_color(k),
{
    reveal_strlit("black");
    reveal_strlit("red");
    reveal_strlit("green");
    reveal_strlit("yellow");
    reveal_strlit("blue");
    reveal_strlit("magenta");
    reveal_strlit("purple");
    reveal_strlit("cyan");
    reveal_strlit("white");
    reveal_strlit("gray");
    reveal_strlit("grey");
    reveal_strlit("dark_red");
    reveal_strlit("dark_green");
    reveal_strlit("dark_yellow");
    reveal_strlit("orange");
    reveal_strlit("dark_blue");
    reveal_strlit("dark_magenta");
    reveal_strlit("dark_cyan");
    let n = spec_names()[k];
    lemma_plain_name(n);
    assert(n[0] != '#');
    assert(n.len() < 5 || n[0] != 'r' || n[1] != 'g');
    if k == 0 {
    }
    if k == 1 {
        lemma_text_differs(n, "black"@, 0);
    }
    if k == 2 {
        lemma_text_differs(n, "black"@, 0);
        lemma_text_differs(n, "red"@, 0);
    }
    if k == 3 {
        lemma_text_differs(n, "black"@, 0);
        lemma_text_differs(n, "red"@, 0);
        lemma_text_differs(n, "green"@, 0);
    }
    if k == 4 {
        lemma_text_differs(n, "black"@, 0);
        lemma_text_differs(n, "red"@, 0);
        lemma_text_differs(n, "green"@, 0);
        lemma_text_differs(n, "yellow"@, 0);
    }
    if k == 5 {
        lemma_text_differs(n, "black"@, 0);
        lemma_text_differs(n, "red"@, 0);
        lemma_text_differs(n, "green"@, 0);
        lemma_text_differs(n, "yellow"@, 0);
        lemma_text_differs(n, "blue"@, 0);
    }
    if k == 6 {
        lemma_text_differs(n, "black"@, 0);
        lemma_text_differs(n, "red"@, 0);
        lemma_text_differs(n, "green"@, 0);
        lemma_text_differs(n, "yellow"@, 0);
        lemma_text_differs(n, "blue"@, 0);
        lemma_text_differs(n, "magenta"@, 0);
        lemma_text_differs(n, "purple"@, 0);
    }
    if k == 7 {
        lemma_text_differs(n, "black"@, 0);
        lemma_text_differs(n, "red"@, 0);
        lemma_text_differs(n, "green"@, 0);
        lemma_text_differs(n, "yellow"@, 0);
        lemma_text_differs(n, "blue"@, 0);
        lemma_text_differs(n, "magenta"@, 0);
        lemma_text_differs(n, "purple"@, 0);
        lemma_text_differs(n, "cyan"@, 0);
    }
    if k == 8 {
        lemma_text_differs(n, "black"@, 0);
        lemma_text_differs(n, "red"@, 0);
        lemma_text_differs(n, "green"@, 0);
        lemma_text_differs(n, "yellow"@, 0);
        lemma_text_differs(n, "blue"@, 0);
        lemma_text_differs(n, "magenta"@, 0);
        lemma_text_differs(n, "purple"@, 0);
        lemma_text_differs(n, "cyan"@, 0);
        lemma_text_differs(n, "white"@, 0);
    }
    if k == 9 {
        lemma_text_differs(n, "black"@, 0);
        lemma_text_differs(n, "red"@, 0);
        lemma_text_differs(n, "green"@, 0);
        lemma_text_differs(n, "yellow"@, 0);
        lemma_text_differs(n, "blue"@, 0);
        lemma_text_differs(n, "magenta"@, 0);
        lemma_text_differs(n, "purple"@, 0);
        lemma_text_differs(n, "cyan"@, 0);
        lemma_text_differs(n, "white"@, 0);
        lemma_text_differs(n, "gray"@, 0);
        lemma_text_differs(n, "grey"@, 0);
    }
    if k == 10 {
        lemma_text_differs(n, "black"@, 0);
        lemma_text_differs(n, "red"@, 0);
        lemma_text_differs(n, "green"@, 0);
        lemma_text_differs(n, "yellow"@, 0);
        lemma_text_differs(n, "blue"@, 0);
        lemma_text_differs(n, "magenta"@, 0);
        lemma_text_differs(n, "purple"@, 0);
        lemma_text_differs(n, "cyan"@, 0);
        lemma_text_differs(n, "white"@, 0);
        lemma_text_differs(n, "gray"@, 0);
        lemma_text_differs(n, "grey"@, 0);
        lemma_text_differs(n, "dark_red"@, 0);
    }
    if k == 11 {
        lemma_text_differs(n, "black"@, 0);
        lemma_text_differs(n, "red"@, 0);
        lemma_text_differs(n, "green"@, 0);
        lemma_text_differs(n, "yellow"@, 0);
        lemma_text_differs(n, "blue"@, 0);
        lemma_text_differs(n, "magenta"@, 0);
        lemma_text_differs(n, "purple"@, 0);
        lemma_text_differs(n, "cyan"@, 0);
        lemma_text_differs(n, "white"@, 0);
        lemma_text_differs(n, "gray"@, 0);
        lemma_text_differs(n, "grey"@, 0);
        lemma_text_differs(n, "dark_red"@, 0);
        lemma_text_differs(n, "dark_green"@, 0);
    }
    if k == 12 {
        lemma_text_differs(n, "black"@, 0);
        lemma_text_differs(n, "red"@, 0);
        lemma_text_differs(n, "green"@, 0);
        lemma_text_differs(n, "yellow"@, 0);
        lemma_text_differs(n, "blue"@, 0);
        lemma_text_differs(n, "magenta"@, 0);
        lemma_text_differs(n, "purple"@, 0);
        lemma_text_differs(n, "cyan"@, 0);
        lemma_text_differs(n, "white"@, 0);
        lemma_text_differs(n, "gray"@, 0);
        lemma_text_differs(n, "grey"@, 0);
        lemma_text_differs(n, "dark_red"@, 0);
        lemma_text_differs(n, "dark_green"@, 0);
        lemma_text_differs(n, "dark_yellow"@, 0);
        lemma_text_differs(n, "orange"@, 0);
    }
    if k == 13 {
        lemma_text_differs(n, "black"@, 0);
        lemma_text_differs(n, "red"@, 0);
        lemma_text_differs(n, "green"@, 0);
        lemma_text_differs(n, "yellow"@, 0);
        lemma_text_differs(n, "blue"@, 0);
        lemma_text_differs(n, "magenta"@, 0);
        lemma_text_differs(n, "purple"@, 0);
        lemma_text_differs(n, "cyan"@, 0);
        lemma_text_differs(n, "white"@, 0);
        lemma_text_differs(n, "gray"@, 0);
        lemma_text_differs(n, "grey"@, 0);
        lemma_text_differs(n, "dark_red"@, 0);
        lemma_text_differs(n, "dark_green"@, 0);
        lemma_text_differs(n, "dark_yellow"@, 0);
        lemma_text_differs(n, "orange"@, 0);
        lemma_text_differs(n, "dark_blue"@, 0);
    }
    if k == 14 {
        lemma_text_differs(n, "black"@, 0);
        lemma_text_differs(n, "red"@, 0);
        lemma_text_differs(n, "green"@, 0);
        lemma_text_differs(n, "yellow"@, 0);
        lemma_text_differs(n, "blue"@, 0);
        lemma_text_differs(n, "magenta"@, 0);
        lemma_text_differs(n, "purple"@, 0);
        lemma_text_differs(n, "cyan"@, 0);
        lemma_text_differs(n, "white"@, 0);
        lemma_text_differs(n, "gray"@, 0);
        lemma_text_differs(n, "grey"@, 0);
        lemma_text_differs(n, "dark_red"@, 0);
        lemma_text_differs(n, "dark_green"@, 0);
        lemma_text_differs(n, "dark_yellow"@, 0);
        lemma_text_differs(n, "orange"@, 0);
        lemma_text_differs(n, "dark_blue"@, 5);
        lemma_text_differs(n, "dark_magenta"@, 0);
    }
}

/// The fifteen built-in names give fifteen different colors.
pub proof fn lemma_builtin_names_distinct(i: int, j: int)
    requires
        0 <= i < j < 15,
    ensures
        color_named(spec_names()[i]) != color_named(spec_names()[j]),
{
    lemma_builtin_names(i);
    lemma_builtin_names(j);
}

/// What a color name means does not depend on surrounding whitespace or
/// letter case: a name reads as its trimmed, lower-cased form.
pub proof fn lemma_parse_normalises(name: Seq<char>)
    ensures
        color_named(name) == color_named(lower_seq(trimmed(name))),
{
    lemma_normalised_fixed(name);
}

/// A name that, trimmed and lower-cased, is no `#rrggbb`, no `rgb(r,g,b)`
/// and none of the built-in names or aliases is white.
pub proof fn lemma_unrecognised_is_white(name: Seq<char>)
    requires
        hex_color(lower_seq(trimmed(name))) is None,
        rgb_color(lower_seq(trimmed(name))) is None,
        forall|k: int| 0 <= k < 15 ==> lower_seq(trimmed(name)) != #[trigger] spec_names()[k],
        lower_seq(trimmed(name)) != "purple"@,
        lower_seq(trimmed(name)) != "grey"@,
        lower_seq(trimmed(name)) != "orange"@,
    ensures
        color_named(name) == Color::White,
{
    assert(spec_names()[0] == "black"@);
    assert(spec_names()[1] == "red"@);
    assert(spec_names()[2] == "green"@);
    assert(spec_names()[3] == "yellow"@);
    assert(spec_names()[4] == "blue"@);
    assert(spec_names()[5] == "magenta"@);
    assert(spec_names()[6] == "cyan"@);
    assert(spec_names()[8] == "gray"@);
    assert(spec_names()[9] == "dark_red"@);
    assert(spec_names()[10] == "dark_green"@);
    assert(spec_names()[11] == "dark_yellow"@);
    assert(spec_names()[12] == "dark_blue"@);
    assert(spec_names()[13] == "dark_magenta"@);
    assert(spec_names()[14] == "dark_cyan"@);
}

} // verus!
