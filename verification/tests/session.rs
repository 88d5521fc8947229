use clock::config::{Config, Face};
use clock::session::{move_selection, next_wake, remembered, Key, Session, Step};

#[test]
fn picker_selection_moves_within_grid() {
    assert_eq!(move_selection(0, -1, 0), 0);
    assert_eq!(move_selection(0, 1, 0), 1);
    assert_eq!(move_selection(1, 1, 0), 1);
    assert_eq!(move_selection(1, -1, 0), 0);
    assert_eq!(move_selection(0, 0, -1), 0);
    assert_eq!(move_selection(0, 0, 1), 2);
    assert_eq!(move_selection(0, 0, 10), 10);
    assert_eq!(move_selection(11, 0, 1), 11);
    assert_eq!(move_selection(11, 0, -1), 9);
    assert_eq!(move_selection(5, 1, 1), 7);
}

#[test]
fn wake_periods() {
    let mut c = Config::default();
    // Digital face with a blinking colon: every 500ms.
    assert_eq!(next_wake(&c, 1_000_250), 250);
    assert_eq!(next_wake(&c, 1_000_495), 10);
    assert_eq!(next_wake(&c, 1_000_000), 500);
    assert_eq!(next_wake(&c, -1), 10);
    // Seconds shown, no blinking face: every second.
    c.face = Face::Analog;
    assert_eq!(next_wake(&c, 1_000_250), 750);
    // Nothing faster than a minute to show.
    c.show_seconds = false;
    assert_eq!(next_wake(&c, 1_000_250), 60_000 - 40_250);
    c.face = Face::Matrix;
    assert_eq!(next_wake(&c, 1_000_250), 250);
    c.blink_colon = false;
    assert_eq!(next_wake(&c, 1_000_250), 19_750);
}

fn ch(c: char) -> Key {
    Key::Char { c, ctrl: false }
}

#[test]
fn arrows_cycle_faces() {
    let mut s = Session::new(Config::default());
    assert_eq!(s.handle_key(Key::Right), Step::Continue);
    assert_eq!(s.cfg.face, Face::Analog);
    assert!(s.needs_clear);
    s.cleared();
    assert!(!s.needs_clear);
    s.handle_key(Key::Left);
    assert_eq!(s.cfg.face, Face::Digital);
    s.handle_key(Key::Left);
    assert_eq!(s.cfg.face, Face::Hourglass);
}

#[test]
fn toggles_and_sizes() {
    let mut s = Session::new(Config::default());
    s.cleared();
    s.handle_key(ch('t'));
    assert!(!s.cfg.hour12);
    assert!(!s.needs_clear);
    s.handle_key(ch('s'));
    assert!(!s.cfg.show_seconds);
    assert!(s.needs_clear);
    for _ in 0..5 {
        s.handle_key(ch('+'));
    }
    assert_eq!(s.cfg.scale, 7);
    for _ in 0..5 {
        s.handle_key(ch('+'));
    }
    assert_eq!(s.cfg.scale, 9);
    s.handle_key(ch('-'));
    assert_eq!(s.cfg.scale, 8);
    for _ in 0..10 {
        s.handle_key(ch('-'));
    }
    assert_eq!(s.cfg.scale, 1);
    s.handle_key(ch('0'));
    assert_eq!(s.cfg.scale, 0);
    s.handle_key(ch('='));
    assert_eq!(s.cfg.scale, 1);
}

#[test]
fn growing_from_any_size_stops_at_nine() {
    let mut c = Config::default();
    c.scale = 255;
    let mut s = Session::new(c);
    s.handle_key(ch('+'));
    assert_eq!(s.cfg.scale, 9);
    s.handle_key(ch('='));
    assert_eq!(s.cfg.scale, 9);
}

#[test]
fn quitting() {
    let mut s = Session::new(Config::default());
    assert_eq!(s.handle_key(ch('q')), Step::Quit);
    assert_eq!(s.handle_key(Key::Esc), Step::Quit);
    assert_eq!(s.handle_key(Key::Char { c: 'c', ctrl: true }), Step::Quit);
    assert_eq!(s.handle_key(ch('c')), Step::Continue);
    assert_eq!(s.handle_key(Key::Other), Step::Continue);
}

#[test]
fn picker_opens_moves_and_selects() {
    let mut c = Config::default();
    c.face = Face::Word;
    let mut s = Session::new(c);
    s.cleared();
    s.handle_key(Key::Tab);
    assert_eq!(s.picker, Some(3));
    assert!(s.needs_clear);
    s.handle_key(Key::Down);
    assert_eq!(s.picker, Some(5));
    s.handle_key(Key::Left);
    assert_eq!(s.picker, Some(4));
    // Esc closes the picker without leaving the clock.
    assert_eq!(s.handle_key(Key::Esc), Step::Continue);
    assert_eq!(s.picker, None);
    assert_eq!(s.cfg.face, Face::Word);
    s.handle_key(Key::Tab);
    s.handle_key(Key::Down);
    s.handle_key(Key::Down);
    assert_eq!(s.handle_key(Key::Enter), Step::Continue);
    assert_eq!(s.picker, None);
    assert_eq!(s.cfg.face, Face::Rings);
    s.handle_key(Key::Tab);
    assert_eq!(s.handle_key(ch('q')), Step::Quit);
}

#[test]
fn session_changes_are_remembered_but_overrides_are_not() {
    let saved = Config::default();
    let mut start = Config::default();
    start.face = Face::Roman; // a one-run override
    start.color = "green".to_string(); // another
    let mut s = Session::new(start.clone());
    s.handle_key(ch('t'));
    let out = remembered(&saved, &start, &s.cfg);
    assert_eq!(out.face, Face::Digital);
    assert!(!out.hour12);
    assert_eq!(out.color, "cyan");
    assert_eq!(out.scale, 2);

    s.handle_key(Key::Right);
    s.handle_key(ch('-'));
    let out = remembered(&saved, &start, &s.cfg);
    assert_eq!(out.face, Face::Lcd);
    assert_eq!(out.scale, 1);
}
