use clock::color::Color;
use clock::config::Config;
use clock::faces::snake::{render, simulate, Rng, SnakeColors, TICK_MS, WINDOW_MS};
use clock::time::LocalTime;

#[test]
fn splitmix_sequence() {
    let mut r = Rng::new(0);
    assert_eq!(r.next_u64(), 0xE220_A839_7B1D_CDAF);
    assert_eq!(r.next_u64(), 0x6E78_9E6A_A1B9_65F4);
    let mut r = Rng::new(0);
    assert_eq!(r.below(10), 5);
    assert_eq!(r.below(7), 1);
}

fn adjacent(a: (i32, i32), b: (i32, i32)) -> bool {
    (a.0 - b.0).abs() + (a.1 - b.1).abs() == 1
}

#[test]
fn board_is_a_function_of_window_and_tick() {
    let window = 1_786_700_000_000i64 / WINDOW_MS * WINDOW_MS;
    let t = window + 500 * TICK_MS + 3;
    let (b1, f1) = simulate(t, 30, 12);
    let (b2, f2) = simulate(t + 100, 30, 12);
    assert_eq!(b1, b2);
    assert_eq!(f1, f2);
    // A fresh window starts a fresh snake in the middle.
    let (b0, _) = simulate(window, 30, 12);
    assert_eq!(b0.iter().copied().collect::<Vec<_>>(), vec![(15, 6), (14, 6), (13, 6)]);
}

#[test]
fn snake_stays_whole() {
    let base = 1_786_700_000_000i64 / WINDOW_MS * WINDOW_MS;
    for k in [0i64, 1, 7, 50, 400, 3000, 6900] {
        let (body, food) = simulate(base + k * TICK_MS, 20, 8);
        assert!(body.len() >= 3);
        for p in body.iter() {
            assert!(p.0 >= 0 && p.0 < 20 && p.1 >= 0 && p.1 < 8);
        }
        for i in 0..body.len() - 1 {
            assert!(adjacent(body[i], body[i + 1]));
        }
        for i in 0..body.len() {
            for j in i + 1..body.len() {
                assert_ne!(body[i], body[j]);
            }
        }
        assert!(!body.contains(&food));
        assert!(food.0 >= 0 && food.0 < 20 && food.1 >= 0 && food.1 < 8);
    }
}

#[test]
fn snake_face_layout() {
    let colors = SnakeColors { primary: Color::Green, accent: Color::Red, body: Color::DarkGreen, date: Color::Grey };
    let now = LocalTime {
        hour: 14,
        minute: 3,
        second: 9,
        millis: 1_786_700_000_000,
        date_text: "Friday, August 14 2026".to_string(),
    };
    let cfg = Config::default();
    let lines = render(&now, &cfg, 20, 12, &colors);
    assert_eq!(lines.len(), 1 + 9 + 2);
    assert_eq!(lines[0][0].text, "02:03:09 PM");
    let (body, food) = simulate(now.millis, 20, 9);
    let row = |y: usize| -> String { lines[1 + y].iter().map(|s| s.text.as_str()).collect() };
    let head = body[0];
    assert_eq!(row(head.1 as usize).chars().nth(head.0 as usize), Some('\u{25C6}'));
    assert_eq!(row(food.1 as usize).chars().nth(food.0 as usize), Some('\u{2022}'));
    assert_eq!(lines[11][0].text, "Friday, August 14 2026");
    assert_eq!(lines[11][0].color, Color::Grey);
    // Too small for a board: only the header and the date.
    let small = render(&now, &cfg, 5, 12, &colors);
    assert_eq!(small.len(), 3);
}
