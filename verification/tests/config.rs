use clock::cli::{set_field, ConfigError, Overrides};
use clock::config::{
    default_accent, default_color, default_scale, default_true, Config, Face, FACE_COUNT,
};

#[test]
fn defaults() {
    let c = Config::default();
    assert_eq!(c.face, Face::Digital);
    assert!(c.hour12 && c.show_seconds && c.show_date && c.blink_colon && c.tick_marks);
    assert!(c.ghost_segments);
    assert_eq!(c.second_step, 1);
    assert_eq!(c.scale, 2);
    assert_eq!(c.color, "cyan");
    assert_eq!(c.accent_color, "magenta");
    assert!(default_true());
    assert_eq!(default_scale(), 2);
    assert_eq!(default_color(), "cyan");
    assert_eq!(default_accent(), "magenta");
}

#[test]
fn scale_clamped_to_fixed_sizes() {
    let mut c = Config::default();
    for (s, want) in [(0u8, 1u8), (1, 1), (3, 3), (4, 4), (9, 4), (255, 4)] {
        c.scale = s;
        assert_eq!(c.scale_clamped(), want);
    }
}

#[test]
fn step_second_rounds_down() {
    let mut c = Config::default();
    assert_eq!(c.step_second(37), 37);
    c.second_step = 5;
    assert_eq!(c.step_second(37), 35);
    c.second_step = 15;
    assert_eq!(c.step_second(59), 45);
    c.second_step = 0;
    assert_eq!(c.step_second(59), 59);
}

#[test]
fn faces_cycle() {
    assert_eq!(Face::Digital.prev(), Face::Hourglass);
    assert_eq!(Face::Hourglass.next(), Face::Digital);
    assert_eq!(Face::Analog.next(), Face::Binary);
    let mut f = Face::Word;
    for _ in 0..FACE_COUNT {
        f = f.next();
    }
    assert_eq!(f, Face::Word);
    for i in 0..FACE_COUNT {
        let f = Face::from_index(i);
        assert_eq!(f.index(), i);
        assert_eq!(f.next().prev(), f);
        assert_eq!(f.prev().next(), f);
    }
    assert_eq!(Face::Roman.name(), "roman");
    assert_eq!(Face::Hourglass.name(), "hourglass");
}

#[test]
fn set_face_in_any_case() {
    let mut c = Config::default();
    assert!(set_field(&mut c, "face", "ANALOG").is_ok());
    assert_eq!(c.face, Face::Analog);
    assert!(set_field(&mut c, "face", "lcd").is_ok());
    assert_eq!(c.face, Face::Lcd);
    match set_field(&mut c, "face", "Sundial") {
        Err(ConfigError::UnknownFace(v)) => assert_eq!(v, "sundial"),
        other => panic!("unexpected {other:?}"),
    }
    assert_eq!(c.face, Face::Lcd);
    let e = set_field(&mut c, "face", "x").unwrap_err();
    assert_eq!(
        e.message(),
        "unknown face 'x' (expected one of: digital, analog, binary, word, matrix, flip, bars, rings, roman, lcd, hourglass, blocks)"
    );
}

#[test]
fn set_booleans() {
    let mut c = Config::default();
    assert!(set_field(&mut c, "hour12", "Off").is_ok());
    assert!(!c.hour12);
    assert!(set_field(&mut c, "hour12", "YES").is_ok());
    assert!(c.hour12);
    assert!(set_field(&mut c, "show_seconds", "0").is_ok());
    assert!(!c.show_seconds);
    assert!(set_field(&mut c, "show_date", "no").is_ok());
    assert!(!c.show_date);
    assert!(set_field(&mut c, "blink_colon", "false").is_ok());
    assert!(!c.blink_colon);
    assert!(set_field(&mut c, "tick_marks", "off").is_ok());
    assert!(!c.tick_marks);
    assert!(set_field(&mut c, "ghost_segments", "1").is_ok());
    assert!(c.ghost_segments);
    let e = set_field(&mut c, "tick_marks", "Maybe").unwrap_err();
    assert!(matches!(e, ConfigError::NotBool(ref v) if v == "maybe"));
    assert_eq!(e.message(), "expected true/false, got 'maybe'");
    assert!(!c.tick_marks);
}

#[test]
fn set_numbers() {
    let mut c = Config::default();
    assert!(set_field(&mut c, "second_step", "0").is_ok());
    assert_eq!(c.second_step, 1);
    assert!(set_field(&mut c, "second_step", "100").is_ok());
    assert_eq!(c.second_step, 60);
    assert!(set_field(&mut c, "second_step", "+15").is_ok());
    assert_eq!(c.second_step, 15);
    let e = set_field(&mut c, "second_step", "ten").unwrap_err();
    assert!(matches!(e, ConfigError::BadSecondStep));
    assert_eq!(e.message(), "second_step must be a number 1-60");
    assert!(matches!(set_field(&mut c, "second_step", " 5"), Err(ConfigError::BadSecondStep)));
    assert_eq!(c.second_step, 15);

    assert!(set_field(&mut c, "scale", "12").is_ok());
    assert_eq!(c.scale, 9);
    assert!(set_field(&mut c, "scale", "0").is_ok());
    assert_eq!(c.scale, 0);
    assert!(set_field(&mut c, "scale", "3").is_ok());
    assert_eq!(c.scale, 3);
    let e = set_field(&mut c, "scale", "300").unwrap_err();
    assert!(matches!(e, ConfigError::BadScale));
    assert_eq!(e.message(), "scale must be 0 (auto) or 1-9");
    assert!(matches!(set_field(&mut c, "scale", "-1"), Err(ConfigError::BadScale)));
    assert_eq!(c.scale, 3);
}

#[test]
fn set_colors_and_unknown_keys() {
    let mut c = Config::default();
    assert!(set_field(&mut c, "color", "#33ccff").is_ok());
    assert_eq!(c.color, "#33ccff");
    assert!(set_field(&mut c, "accent_color", "Orange").is_ok());
    assert_eq!(c.accent_color, "Orange");
    let e = set_field(&mut c, "colour", "red").unwrap_err();
    assert!(matches!(e, ConfigError::UnknownKey(ref k) if k == "colour"));
    assert_eq!(
        e.message(),
        "unknown key 'colour' (expected one of: face, hour12, show_seconds, show_date, blink_colon, tick_marks, ghost_segments, second_step, scale, color, accent_color)"
    );
    assert_eq!(c.color, "#33ccff");
}

#[test]
fn overrides_apply_on_top() {
    let base = Config::default();
    let o = Overrides {
        face: Some(Face::Binary),
        hour12: false,
        hour24: true,
        seconds: false,
        no_seconds: true,
        date: true,
        no_date: false,
        color: Some("green".to_string()),
        accent_color: None,
        scale: Some(7),
    };
    let c = o.apply(base);
    assert_eq!(c.face, Face::Binary);
    assert!(!c.hour12);
    assert!(!c.show_seconds);
    assert!(c.show_date);
    assert_eq!(c.color, "green");
    assert_eq!(c.accent_color, "magenta");
    assert_eq!(c.scale, 7);

    let none = Overrides {
        face: None,
        hour12: false,
        hour24: false,
        seconds: false,
        no_seconds: false,
        date: false,
        no_date: false,
        color: None,
        accent_color: None,
        scale: None,
    };
    let c = none.apply(Config::default());
    assert_eq!(c.face, Face::Digital);
    assert!(c.hour12 && c.show_seconds && c.show_date);
    assert_eq!(c.scale, 2);
}
