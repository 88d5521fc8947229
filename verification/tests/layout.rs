use clock::color::Color;
use clock::config::{Config, Face};
use clock::picker;
use clock::faces::bars;
use clock::faces::flip;
use clock::faces::matrix;
use clock::render;
use clock::render::Line;
use clock::text::chars_of;
use clock::time::LocalTime;
use clock::vector;

fn cells(l: &Line) -> Vec<(char, Color)> {
    l.iter().flat_map(|s| s.text.chars().map(move |c| (c, s.color))).collect()
}

fn view(l: &Line) -> Vec<(String, Color)> {
    l.iter().map(|s| (s.text.clone(), s.color)).collect()
}

fn at(hour: u32, minute: u32, second: u32, millis: i64) -> LocalTime {
    LocalTime { hour, minute, second, millis, date_text: "Friday, August 14 2026".to_string() }
}

#[test]
fn chars_in_order() {
    assert_eq!(chars_of("a\u{25CF}c"), vec!['a', '\u{25CF}', 'c']);
    assert!(chars_of("").is_empty());
}

#[test]
fn layers_stack_top_first() {
    let top = vec!["a  ".to_string(), " b".to_string()];
    let base = vec!["xyz".to_string()];
    let palettes = vec![vec![Color::Red; 3], vec![Color::Blue; 3]];
    let lines = render::layered(&vec![top, base], &palettes, 2, 3);
    assert_eq!(lines.len(), 2);
    assert_eq!(view(&lines[0]), vec![("a".to_string(), Color::Red), ("yz".to_string(), Color::Blue)]);
    // Row 1 of the base is missing: blank where the top layer is blank.
    assert_eq!(cells(&lines[1]), vec![(' ', Color::Blue), ('b', Color::Red), (' ', Color::Blue)]);
}

#[test]
fn layer_palettes_color_by_column() {
    let palettes = vec![vec![Color::Red, Color::Green], vec![Color::Blue, Color::Blue]];
    let lines = render::layered(&vec![vec!["ab".to_string()], vec!["  ".to_string()]], &palettes, 1, 2);
    assert_eq!(cells(&lines[0]), vec![('a', Color::Red), ('b', Color::Green)]);
}

#[test]
fn plain_text_joins_spans() {
    let l = vec![render::span("ab".to_string(), Color::Red), render::span("c".to_string(), Color::Blue)];
    assert_eq!(render::plain_text(&l), "abc");
    assert_eq!(render::plain_text(&render::blank()), "");
}

#[test]
fn quadrant_packing() {
    // One cell: upper left and lower right lit.
    let on = vec![true, false, false, true];
    let lines = vector::quadrants(&on, 1, 1, &vec![Color::Cyan]);
    assert_eq!(cells(&lines[0]), vec![('\u{259A}', Color::Cyan)]);
    // Two cells, 2x2 each: full block then empty, one color run each.
    let on = vec![true, true, false, false, true, true, false, false];
    let lines = vector::quadrants(&on, 2, 1, &vec![Color::Red, Color::Red]);
    assert_eq!(view(&lines[0]), vec![("\u{2588} ".to_string(), Color::Red)]);
    assert!(vector::quadrants(&Vec::new(), 3, 0, &vec![Color::Red; 3]).is_empty());
}

#[test]
fn flip_digits_skip_colons() {
    assert_eq!(flip::card_digits("12:34:56"), vec!['1', '2', '3', '4', '5', '6']);
    assert_eq!(flip::card_digits(""), Vec::<char>::new());
}

#[test]
fn flip_colon_blinks() {
    let mut cfg = Config::default();
    assert!(!flip::colon_lit(&at(10, 0, 0, 1_000), &cfg));
    assert!(flip::colon_lit(&at(10, 0, 0, 1_500), &cfg));
    cfg.blink_colon = false;
    assert!(flip::colon_lit(&at(10, 0, 0, 1_000), &cfg));
}

#[test]
fn flip_cards_layout() {
    let colors = flip::CardColors { border: Color::Grey, seam: Color::DarkGrey, pad: Color::Cyan, colon: Color::Magenta };
    let glyph = |c: &str| vec![render::line(c.to_string(), Color::White), render::line(c.to_string(), Color::White)];
    let glyphs = vec![glyph("1"), glyph("2"), glyph("3")];
    // Two-row digits: five card rows, the seam on row 2.
    let lines = flip::cards(&glyphs, 4, 2, true, &colors);
    assert_eq!(lines.len(), 5);
    let text = |l: &Line| render::plain_text(l);
    assert_eq!(text(&lines[0]), "\u{250c}\u{2500}\u{2500}\u{2500}\u{2500}\u{2510}".repeat(2) + "   " + "\u{250c}\u{2500}\u{2500}\u{2500}\u{2500}\u{2510}");
    assert_eq!(text(&lines[1]), "\u{2502} 1  \u{2502}\u{2502} 2  \u{2502} \u{25cf} \u{2502} 3  \u{2502}");
    assert_eq!(text(&lines[2]), "\u{251c}\u{2504}\u{2504}\u{2504}\u{2504}\u{2524}".repeat(2) + "   " + "\u{251c}\u{2504}\u{2504}\u{2504}\u{2504}\u{2524}");
    assert_eq!(text(&lines[3]), "\u{2502} 1  \u{2502}\u{2502} 2  \u{2502} \u{25cf} \u{2502} 3  \u{2502}");
    assert_eq!(text(&lines[4]), "\u{2514}\u{2500}\u{2500}\u{2500}\u{2500}\u{2518}".repeat(2) + "   " + "\u{2514}\u{2500}\u{2500}\u{2500}\u{2500}\u{2518}");
    assert_eq!(view(&lines[0])[0].1, Color::Grey);
    assert_eq!(view(&lines[2])[0].1, Color::DarkGrey);
    let row1 = view(&lines[1]);
    assert_eq!(row1[0], ("\u{2502}".to_string(), Color::Grey));
    assert_eq!(row1[1], (" ".to_string(), Color::Cyan));
    assert_eq!(row1[2], ("1".to_string(), Color::White));
    assert_eq!(row1[3], ("  ".to_string(), Color::Cyan));
    assert_eq!(row1[10], (" \u{25cf} ".to_string(), Color::Magenta));
    // With the colon hidden its dots are blank.
    let hidden = flip::cards(&glyphs, 4, 2, false, &colors);
    assert_eq!(text(&hidden[1]), "\u{2502} 1  \u{2502}\u{2502} 2  \u{2502}   \u{2502} 3  \u{2502}");
}

#[test]
fn bar_rows_follow_the_clock() {
    let mut cfg = Config::default();
    let rows = bars::bar_rows(&at(15, 7, 42, 0), &cfg);
    assert_eq!(rows.len(), 3);
    assert_eq!((rows[0].label, rows[0].value, rows[0].max), ("HOURS", 3, 12));
    assert_eq!((rows[1].label, rows[1].value, rows[1].max), ("MINUTES", 7, 60));
    assert_eq!((rows[2].label, rows[2].value, rows[2].max), ("SECONDS", 42, 60));
    assert_eq!(bars::label_width(&rows), 7);
    cfg.hour12 = false;
    cfg.show_seconds = false;
    let rows = bars::bar_rows(&at(15, 7, 42, 0), &cfg);
    assert_eq!(rows.len(), 2);
    assert_eq!((rows[0].value, rows[0].max), (15, 24));
}

#[test]
fn bar_sizes() {
    assert_eq!(bars::bar_width(80, 7), 63);
    assert_eq!(bars::bar_width(20, 7), 10);
    assert_eq!(bars::bar_width(500, 7), 160);
    let mut cfg = Config::default();
    cfg.scale = 0;
    // 40 rows less 3 for the date, over 3 bars: 12 each, 11 thick, at most 5.
    assert_eq!(bars::bar_thickness(&cfg, 40, 3), 5);
    assert_eq!(bars::bar_thickness(&cfg, 10, 3), 1);
    cfg.show_date = false;
    assert_eq!(bars::bar_thickness(&cfg, 10, 3), 2);
    cfg.scale = 3;
    assert_eq!(bars::bar_thickness(&cfg, 10, 3), 3);
    assert_eq!(cfg.resolve_scale(5), 3);
}

#[test]
fn bar_stripes() {
    let row = bars::BarRow { label: "HOURS", value: 3, max: 12 };
    let colors = bars::BarColors { label: Color::Yellow, value: Color::Green, base: Color::Blue, empty: Color::DarkGrey };
    let fill = vec![Color::Red, Color::Red, Color::Magenta, Color::Magenta];
    let mid = bars::stripe(&row, 7, true, 3, 4, &colors, &fill);
    assert_eq!(render::plain_text(&mid), "  HOURS  \u{2588}\u{2588}\u{2588}\u{2591}  3/12");
    let c = cells(&mid);
    assert_eq!(c[0], (' ', Color::Yellow));
    assert_eq!(c[9], ('\u{2588}', Color::Red));
    assert_eq!(c[11], ('\u{2588}', Color::Magenta));
    assert_eq!(c[12], ('\u{2591}', Color::DarkGrey));
    assert_eq!(c[13], (' ', Color::Green));
    let other = bars::stripe(&bars::BarRow { label: "MINUTES", value: 42, max: 60 }, 7, false, 0, 2, &colors, &fill);
    assert_eq!(render::plain_text(&other), "         \u{2591}\u{2591}      ");
    assert_eq!(cells(&other)[0], (' ', Color::Blue));
    let wide = bars::stripe(&bars::BarRow { label: "MINUTES", value: 42, max: 60 }, 7, true, 0, 0, &colors, &fill);
    assert_eq!(render::plain_text(&wide), "MINUTES   42/60");
}

#[test]
fn matrix_braille_one() {
    let lines = matrix::render_text("1", 1, &[]);
    assert_eq!(lines, vec!["    \u{2847}", "    \u{2847}", "    \u{2847}", "    \u{2847}", "    \u{2801}"]);
}

#[test]
fn matrix_braille_colon_and_blink() {
    let lines = matrix::render_text(":", 1, &[]);
    assert_eq!(lines, vec!["   ", " \u{2803} ", " \u{2840} ", " \u{2801} ", "   "]);
    let hidden = matrix::render_text(":", 1, &[true]);
    assert!(hidden.iter().all(|l| l == "   "));
    // No text: a single blank column.
    assert_eq!(matrix::render_text("", 2, &[]), vec![" "; 9]);
}

#[test]
fn matrix_braille_digit_width() {
    let lines = matrix::render_text("10:00", 2, &[false, false, true, false, false]);
    assert_eq!(lines.len(), 9);
    // 4 digits of 16 dots, a colon of 8, four 8-dot gutters: 104 dots.
    assert!(lines.iter().all(|l| l.chars().count() == 53));
    // The top row starts with the '1' (dots at x = 16) and the '0' top bar.
    assert_eq!(lines[0].chars().nth(8), Some('\u{2847}'));
}

#[test]
fn columns_take_palette_colors() {
    let palette = vec![Color::Red, Color::Red, Color::Blue];
    let out = render::colored(&vec!["abc".to_string(), "d".to_string(), String::new()], &palette);
    assert_eq!(out.len(), 3);
    assert_eq!(view(&out[0]), vec![("ab".to_string(), Color::Red), ("c".to_string(), Color::Blue)]);
    assert_eq!(view(&out[1]), vec![("d".to_string(), Color::Red)]);
    assert!(out[2].is_empty());
}

#[test]
fn picker_grid_places() {
    assert_eq!(picker::grid_origin(80, 100), (6, 10));
    assert_eq!(picker::grid_origin(20, 20), (0, 0));
    assert_eq!(picker::box_origin(80, 100, 3), (41, 23));
    assert_eq!(picker::box_origin(80, 100, 10), (6, 75));
    assert_eq!(picker::hint_row(80, 100), 88);
    let placed = picker::place_thumbnail(&vec!["ab".to_string(), "x".repeat(40)]);
    assert_eq!(placed.len(), 2);
    assert_eq!((placed[0].col, placed[0].row, placed[0].text.as_str()), (15, 4, "ab"));
    assert_eq!((placed[1].col, placed[1].row), (1, 5));
    assert_eq!(placed[1].text, "x".repeat(30));
    let many: Vec<String> = (0..12).map(|i| i.to_string()).collect();
    let placed = picker::place_thumbnail(&many);
    assert_eq!(placed.len(), 9);
    assert_eq!(placed[0].row, 1);
    assert_eq!(picker::label(Face::Lcd), ("LCD".to_string(), 14));
    assert_eq!(picker::label(Face::Hourglass), ("HOURGLASS".to_string(), 11));
}
