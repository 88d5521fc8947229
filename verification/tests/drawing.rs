use clock::braille::Canvas;
use clock::color::Color;
use clock::render;
use clock::render::Line;
use clock::seg7;

fn text_of(l: &Line) -> String {
    l.iter().map(|s| s.text.as_str()).collect()
}

#[test]
fn seg7_measures() {
    assert_eq!(seg7::digit_w(3), 24);
    assert_eq!(seg7::digit_h(3), 21);
    assert_eq!(seg7::width_of("", 3), 0);
    assert_eq!(seg7::width_of("8", 2), 16);
    assert_eq!(seg7::width_of("12:34", 1), 38);
    assert_eq!(seg7::width_of("12:34:56", 2), 2 * (6 * 8 + 2 * 2 + 7));
}

#[test]
fn seg7_fit_unit_picks_largest_fitting() {
    assert_eq!(seg7::fit_unit("12:34", 80, 20, 9), 2);
    assert_eq!(seg7::fit_unit("12:34", 200, 100, 9), 5);
    assert_eq!(seg7::fit_unit("12:34", 200, 100, 3), 3);
    assert_eq!(seg7::fit_unit("12:34", 10, 2, 9), 1);
    assert_eq!(seg7::fit_unit("12:34", 80, 20, 0), 1);
}

#[test]
fn seg7_renders_a_one() {
    let colors = vec![Color::Green; 8];
    let lines = seg7::render("1", 1, &[], &colors);
    let rows: Vec<String> = lines.iter().map(text_of).collect();
    assert_eq!(
        rows,
        vec![
            "        ",
            "      \u{2588}\u{2588}",
            "      \u{2588}\u{2588}",
            "        ",
            "      \u{2588}\u{2588}",
            "      \u{2588}\u{2588}",
            "        ",
        ]
    );
    for l in &lines {
        assert_eq!(l.len(), 1);
        assert_eq!(l[0].color, Color::Green);
    }
}

#[test]
fn seg7_colon_blink_and_columns() {
    let w = seg7::width_of("1:1", 1);
    assert_eq!(w, 20);
    let colors: Vec<Color> = (0..w).map(|i| if i < 10 { Color::Red } else { Color::Blue }).collect();
    let lines = seg7::render("1:1", 1, &[], &colors);
    let rows: Vec<String> = lines.iter().map(text_of).collect();
    assert_eq!(rows[2], "      \u{2588}\u{2588} \u{2588}\u{2588}       \u{2588}\u{2588}");
    assert_eq!(rows[0], " ".repeat(20));
    // Each row splits into a red run and a blue run.
    assert!(lines.iter().all(|l| l.len() == 2 && l[0].color == Color::Red && l[1].color == Color::Blue));
    let hidden = seg7::render("1:1", 1, &[false, true], &colors);
    let rows: Vec<String> = hidden.iter().map(text_of).collect();
    assert_eq!(rows[2], "      \u{2588}\u{2588}          \u{2588}\u{2588}");
}

#[test]
fn seg7_chamfers_large_digits() {
    let colors = vec![Color::White; 24];
    let lines = seg7::render("8", 3, &[], &colors);
    assert_eq!(lines.len(), 21);
    let top = text_of(&lines[0]);
    // k = 1: the two outermost cells at each corner are cut.
    assert!(top.starts_with(' '));
    assert!(top.ends_with(' '));
    assert_eq!(top.chars().filter(|c| *c == '\u{2588}').count(), 20);
    assert!(seg7::render("", 2, &[], &colors).is_empty());
}

#[test]
fn line_widths() {
    let l = render::line("ab\u{1F431}".to_string(), Color::Red);
    assert_eq!(render::line_width(&l), 4);
    assert_eq!(render::line_width(&render::blank()), 0);
    let block = vec![l, render::line("xyz".to_string(), Color::Blue), render::blank()];
    assert_eq!(render::block_width(&block), 4);
    assert_eq!(render::block_width(&Vec::new()), 0);
}

#[test]
fn cells_merge_into_runs() {
    let mut l: Line = Vec::new();
    render::push_cell(&mut l, 'a', Color::Red);
    render::push_cell(&mut l, 'b', Color::Red);
    render::push_cell(&mut l, 'c', Color::Blue);
    render::push_cell(&mut l, 'd', Color::Red);
    assert_eq!(l.len(), 3);
    assert_eq!(l[0].text, "ab");
    assert_eq!(l[1].text, "c");
    assert_eq!(l[2].text, "d");
}

#[test]
fn padding_centers_lines() {
    let lines = vec![
        render::line("abc".to_string(), Color::Red),
        render::blank(),
        render::line("abcdefgh".to_string(), Color::Blue),
        vec![render::span("x".to_string(), Color::Green), render::span("y".to_string(), Color::Red)],
    ];
    let out = render::pad_to_width(lines, 8);
    assert_eq!(text_of(&out[0]), "  abc   ");
    assert_eq!(out[0][0].color, Color::Red);
    assert_eq!(out[0].len(), 3);
    assert_eq!(text_of(&out[1]), "        ");
    assert_eq!(out[1][0].color, Color::Reset);
    assert_eq!(text_of(&out[2]), "abcdefgh");
    assert_eq!(out[2].len(), 1);
    assert_eq!(text_of(&out[3]), "   xy   ");
    assert_eq!(out[3][0].color, Color::Green);
    assert_eq!(out[3][3].color, Color::Green);
}

#[test]
fn braille_canvas() {
    let mut c = Canvas::new(2, 2);
    assert_eq!(c.px_width(), 4);
    assert_eq!(c.px_height(), 8);
    assert_eq!(c.lines(), vec!["  ", "  "]);
    c.plot(0, 0);
    assert_eq!(c.lines(), vec!["\u{2801} ", "  "]);
    c.plot(3, 3);
    c.plot(3, 3);
    assert_eq!(c.lines(), vec!["\u{2801}\u{2880}", "  "]);
    c.plot(1, 5);
    assert_eq!(c.lines(), vec!["\u{2801}\u{2880}", "\u{2810} "]);
    // Off-canvas dots are dropped.
    c.plot(-1, 0);
    c.plot(4, 0);
    c.plot(0, 8);
    assert_eq!(c.lines(), vec!["\u{2801}\u{2880}", "\u{2810} "]);
}
