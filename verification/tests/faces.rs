use clock::config::Config;
use clock::faces::analog::Rendered;
use clock::faces::binary::{digit_column, render as binary_render};
use clock::faces::digital::{blink_mask, time_text};
use clock::faces::matrix::{clock_text, segments as matrix_segments};
use clock::faces::roman::{longest, numerals, to_roman};
use clock::faces::word::phrase;
use clock::time::LocalTime;
use clock::vector::segments as vector_segments;

fn at(hour: u32, minute: u32, second: u32, millis: i64) -> LocalTime {
    LocalTime { hour, minute, second, millis, date_text: "Friday, August 14 2026".to_string() }
}

#[test]
fn digital_text_12h_and_24h() {
    let mut c = Config::default();
    let (t, colons, suffix) = time_text(&at(13, 5, 9, 0), &c);
    assert_eq!(t, "01:05:09");
    assert_eq!(colons, vec![2, 5]);
    assert_eq!(suffix, "PM");
    let (t, _, suffix) = time_text(&at(0, 30, 0, 0), &c);
    assert_eq!(t, "12:30:00");
    assert_eq!(suffix, "AM");
    c.second_step = 5;
    assert_eq!(time_text(&at(13, 5, 9, 0), &c).0, "01:05:05");
    c.hour12 = false;
    c.show_seconds = false;
    let (t, colons, suffix) = time_text(&at(13, 5, 9, 0), &c);
    assert_eq!(t, "13:05");
    assert_eq!(colons, vec![2]);
    assert_eq!(suffix, "");
}

#[test]
fn colons_blink_every_half_second() {
    let mut c = Config::default();
    let colons = vec![2, 5];
    assert_eq!(
        blink_mask(&at(0, 0, 0, 1000), &c, 8, &colons),
        vec![false, false, true, false, false, true, false, false]
    );
    assert_eq!(blink_mask(&at(0, 0, 0, 1500), &c, 8, &colons), vec![false; 8]);
    assert_eq!(blink_mask(&at(0, 0, 0, 1000), &c, 4, &colons), vec![false, false, true, false]);
    c.blink_colon = false;
    assert_eq!(blink_mask(&at(0, 0, 0, 1000), &c, 8, &colons), vec![false; 8]);
}

#[test]
fn binary_columns() {
    assert_eq!(digit_column(0), ['○', '○', '○', '○']);
    assert_eq!(digit_column(9), ['●', '○', '○', '●']);
    assert_eq!(digit_column(6), ['○', '●', '●', '○']);
}

#[test]
fn binary_face_lines() {
    let mut c = Config::default();
    c.hour12 = false;
    c.show_date = false;
    let lines = binary_render(&at(9, 41, 27, 0), &c);
    assert_eq!(
        lines,
        vec![
            "H   H   M   M   S   S",
            "",
            "○   ●   ○   ○   ○   ○",
            "○   ○   ●   ○   ○   ●",
            "○   ○   ○   ○   ●   ●",
            "○   ●   ○   ●   ○   ●",
        ]
    );
    c.show_seconds = false;
    c.show_date = true;
    c.hour12 = true;
    let lines = binary_render(&at(21, 7, 0, 0), &c);
    assert_eq!(lines.len(), 8);
    assert_eq!(lines[0], "H   H   M   M");
    assert_eq!(lines[5], "○   ●   ○   ●");
    assert_eq!(lines[6], "");
    assert_eq!(lines[7], "Friday, August 14 2026");
}

#[test]
fn roman_numerals() {
    let cases = [
        (0, "N"),
        (1, "I"),
        (4, "IV"),
        (9, "IX"),
        (14, "XIV"),
        (38, "XXXVIII"),
        (40, "XL"),
        (59, "LIX"),
        (1994, "MCMXCIV"),
        (3999, "MMMCMXCIX"),
    ];
    for (n, s) in cases {
        assert_eq!(to_roman(n), s);
    }
    assert_eq!(longest(true), 7);
    assert_eq!(longest(false), 7);
}

#[test]
fn roman_face_parts() {
    let mut c = Config::default();
    assert_eq!(numerals(&at(15, 45, 37, 0), &c), vec!["III", "XLV", "XXXV"]);
    c.second_step = 20;
    assert_eq!(numerals(&at(15, 45, 37, 0), &c), vec!["III", "XLV", "XX"]);
    c.hour12 = false;
    c.show_seconds = false;
    assert_eq!(numerals(&at(0, 0, 37, 0), &c), vec!["N", "N"]);
}

#[test]
fn word_phrases() {
    assert_eq!(phrase(&at(16, 10, 0, 0)), vec!["TEN", "PAST", "FOUR"]);
    assert_eq!(phrase(&at(12, 58, 0, 0)), vec!["ONE", "OCLOCK"]);
    assert_eq!(phrase(&at(3, 33, 0, 0)), vec!["TWENTYFIVE", "TO", "FOUR"]);
    assert_eq!(phrase(&at(23, 58, 0, 0)), vec!["TWELVE", "OCLOCK"]);
    assert_eq!(phrase(&at(4, 42, 0, 0)), vec!["TWENTY", "TO", "FIVE"]);
    assert_eq!(phrase(&at(4, 47, 0, 0)), vec!["QUARTER", "TO", "FIVE"]);
    assert_eq!(phrase(&at(7, 32, 0, 0)), vec!["HALF", "PAST", "SEVEN"]);
    assert_eq!(phrase(&at(11, 54, 0, 0)), vec!["FIVE", "TO", "TWELVE"]);
}

#[test]
fn matrix_text_and_segments() {
    let mut c = Config::default();
    c.hour12 = false;
    let (t, mask, suffix) = clock_text(&at(9, 5, 7, 1000), &c);
    assert_eq!(t, "09:05:07");
    assert_eq!(mask, vec![false, false, true, false, false, true, false, false]);
    assert_eq!(suffix, "");
    c.hour12 = true;
    c.show_seconds = false;
    let (t, mask, suffix) = clock_text(&at(21, 5, 7, 1700), &c);
    assert_eq!(t, "09:05");
    assert_eq!(mask, vec![false; 5]);
    assert_eq!(suffix, "PM");
    assert_eq!(matrix_segments('1'), [false, true, true, false, false, false, false]);
    assert_eq!(matrix_segments('x'), [false; 7]);
    assert_eq!(vector_segments('P'), Some([true, true, false, false, true, true, true]));
    assert_eq!(vector_segments('p'), None);
    assert_eq!(vector_segments('8'), Some([true; 7]));
}

#[test]
fn analog_preview_overlays_hands() {
    let r = Rendered {
        face: vec!["ab c".to_string(), "xyz".to_string(), "extra".to_string()],
        hands: vec![" H  ".to_string(), "  Q".to_string()],
    };
    assert_eq!(r.mono(), vec!["aH c", "xyQ"]);
}
