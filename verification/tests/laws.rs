use clock::color::parse;
use clock::faces::digital::full_time_text;
use clock::faces::matrix::render_text;
use clock::faces::snake::{simulate, TICK_MS};
use clock::cli::set_field;
use clock::color::Color;
use clock::config::{Config, Face, FACE_COUNT};
use clock::faces::{bars, flip, roman};
use clock::render;
use clock::seg7;
use clock::session::{next_wake, Key, Session};
use clock::time::LocalTime;

fn at(hour: u32, minute: u32, second: u32) -> LocalTime {
    LocalTime { hour, minute, second, millis: 0, date_text: String::new() }
}

#[test]
fn every_face_name_sets_that_face() {
    for i in 0..FACE_COUNT {
        let f = Face::from_index(i);
        let mut cfg = Config::default();
        assert!(set_field(&mut cfg, "face", f.name()).is_ok());
        assert_eq!(cfg.face, f);
        let mut cfg = Config::default();
        assert!(set_field(&mut cfg, "face", &f.name().to_uppercase()).is_ok());
        assert_eq!(cfg.face, f);
    }
}

#[test]
fn bigger_windows_never_shrink_the_digits() {
    let mut last = 0;
    for (w, h) in [(10, 5), (40, 10), (60, 14), (80, 20), (120, 30), (200, 60), (600, 100)] {
        let u = seg7::fit_unit("12:34:56", w, h, 9);
        assert!(u >= last);
        last = u;
    }
    assert_eq!(last, 9);
}

#[test]
fn wakes_land_on_period_boundaries() {
    let mut cfg = Config::default();
    for now in [1_000_250i64, 1_234_567, 59_989, 7] {
        let d = next_wake(&cfg, now) as i64;
        assert_eq!((now + d) % 500, 0);
    }
    cfg.blink_colon = false;
    let d = next_wake(&cfg, 1_234_567) as i64;
    assert_eq!((1_234_567 + d) % 1000, 0);
    cfg.show_seconds = false;
    let d = next_wake(&cfg, 1_234_567) as i64;
    assert_eq!((1_234_567 + d) % 60_000, 0);
    // Two milliseconds before a boundary it waits 10 ms instead.
    cfg.show_seconds = true;
    assert_eq!(next_wake(&cfg, 1_998), 10);
}

#[test]
fn padding_holds_the_block_width() {
    let lines = vec![
        render::line("I".to_string(), Color::Red),
        render::line("XVIII".to_string(), Color::Red),
        render::blank(),
        render::line("much too wide".to_string(), Color::Red),
    ];
    let out = render::pad_to_width(lines, 8);
    let widths: Vec<usize> = out.iter().map(render::line_width).collect();
    assert_eq!(widths, vec![8, 8, 8, 13]);
}

#[test]
fn picker_round_trip_keeps_the_face() {
    let mut cfg = Config::default();
    cfg.face = Face::Bars;
    let mut s = Session::new(cfg);
    s.handle_key(Key::Tab);
    s.handle_key(Key::Enter);
    assert_eq!(s.cfg.face, Face::Bars);
    assert_eq!(s.picker, None);
    s.handle_key(Key::Tab);
    s.handle_key(Key::Esc);
    assert_eq!(s.cfg.face, Face::Bars);
    assert_eq!(s.picker, None);
}

#[test]
fn bar_stripes_are_equally_wide() {
    let colors = bars::BarColors { label: Color::Yellow, value: Color::Green, base: Color::Blue, empty: Color::Grey };
    let fill = vec![Color::Red; 20];
    for row in [
        bars::BarRow { label: "HOURS", value: 9, max: 12 },
        bars::BarRow { label: "SECONDS", value: 59, max: 60 },
    ] {
        let mid = bars::stripe(&row, 7, true, 5, 20, &colors, &fill);
        let other = bars::stripe(&row, 7, false, 5, 20, &colors, &fill);
        assert_eq!(render::line_width(&mid), render::line_width(&other));
        assert_eq!(render::line_width(&mid), 7 + 2 + 20 + 6);
    }
}

#[test]
fn card_rows_line_up() {
    let colors = flip::CardColors { border: Color::Grey, seam: Color::DarkGrey, pad: Color::Cyan, colon: Color::Magenta };
    let glyph = |w: usize, rows: usize| -> Vec<render::Line> {
        (0..rows).map(|r| render::line("#".repeat(if r % 2 == 0 { w } else { 1 }), Color::White)).collect()
    };
    let glyphs = vec![glyph(3, 3), glyph(2, 1), glyph(4, 3), glyph(1, 0), glyph(4, 2)];
    let lines = flip::cards(&glyphs, 4, 3, true, &colors);
    assert_eq!(lines.len(), 6);
    let widths: Vec<usize> = lines.iter().map(render::line_width).collect();
    // Five cards of 6 columns and two colons of 3.
    assert!(widths.iter().all(|w| *w == 5 * 6 + 2 * 3));
}

#[test]
fn roman_numerals_fit_the_longest() {
    let mut cfg = Config::default();
    for hour12 in [true, false] {
        cfg.hour12 = hour12;
        let longest = roman::longest(hour12);
        for h in 0..24 {
            for m in [0, 37, 38, 59] {
                for part in roman::numerals(&at(h, m, 38), &cfg) {
                    assert!(part.chars().count() <= longest);
                }
            }
        }
    }
    assert_eq!(roman::longest(true), 7);
    assert_eq!(roman::longest(false), 7);
}

#[test]
fn hex_colors_need_six_hex_digits() {
    assert_eq!(parse("#+12345"), Color::White);
    assert_eq!(parse("#12345g"), Color::White);
    assert_eq!(parse("#1234567"), Color::White);
    assert_eq!(parse(" #33CCFF\t"), Color::Rgb { r: 0x33, g: 0xcc, b: 0xff });
}

#[test]
fn blinking_blanks_in_place() {
    assert_eq!(render_text("12:34", 1, &[false, true, false, false, false]), render_text("1 :34", 1, &[]));
    assert_eq!(render_text("12:34", 2, &[false, false, false, true, true]), render_text("12:  ", 2, &[]));
    let all = render_text("12:34", 1, &[true; 5]);
    assert!(all.iter().all(|l| l.chars().all(|c| c == ' ')));
    assert_eq!(all[0].chars().count(), render_text("12:34", 1, &[])[0].chars().count());
}

#[test]
fn roman_seconds_step() {
    let mut cfg = Config::default();
    cfg.second_step = 1;
    // Steps are never under five seconds: 38 shows as 35.
    assert_eq!(roman::numerals(&at(9, 4, 38), &cfg), roman::numerals(&at(9, 4, 35), &cfg));
    assert_ne!(roman::numerals(&at(9, 4, 40), &cfg), roman::numerals(&at(9, 4, 35), &cfg));
    cfg.second_step = 15;
    assert_eq!(roman::numerals(&at(9, 4, 44), &cfg), roman::numerals(&at(9, 4, 30), &cfg));
}

#[test]
fn full_time_and_centring() {
    let mut cfg = Config::default();
    assert_eq!(full_time_text(&at(15, 7, 42), &cfg), "03:07:42 PM");
    assert_eq!(full_time_text(&at(0, 0, 5), &cfg), "12:00:05 AM");
    cfg.hour12 = false;
    assert_eq!(full_time_text(&at(15, 7, 42), &cfg), "15:07:42");
    assert_eq!(render::centred(80, 20), 30);
    assert_eq!(render::centred(10, 20), 0);
}

#[test]
fn snake_length_changes_by_step() {
    let base: i64 = 1_700_000_100_000;
    let mut prev = simulate(base, 12, 6).0.len();
    let mut grew = false;
    for k in 1..400 {
        let n = simulate(base + k * TICK_MS, 12, 6).0.len();
        assert!(n == prev || n == prev + 1 || n == 3, "{} -> {}", prev, n);
        grew |= n == prev + 1;
        prev = n;
    }
    assert!(grew);
}

#[test]
fn whitespace_matches_std() {
    for v in 0u32..0x11_0000 {
        if let Some(c) = char::from_u32(v) {
            assert_eq!(clock::text::is_whitespace(c), c.is_whitespace(), "{:#x}", v);
        }
    }
}

#[test]
fn color_names_normalise_and_differ() {
    let names = clock::color::names();
    let colors: Vec<Color> = names[..15].iter().map(|n| parse(n)).collect();
    for i in 0..15 {
        for j in i + 1..15 {
            assert_ne!(colors[i], colors[j]);
        }
        assert_eq!(parse(&format!("  {}\n", names[i].to_uppercase())), colors[i]);
    }
    assert_eq!(parse("grey"), parse("gray"));
    assert_eq!(parse("Grey"), Color::DarkGrey);
    assert_eq!(parse("purple"), Color::Magenta);
    assert_eq!(parse("orange"), Color::DarkYellow);
    assert_eq!(parse("rgb(1, 2, 3)"), Color::Rgb { r: 1, g: 2, b: 3 });
    assert_eq!(parse("chartreuse"), Color::White);
}
