//! The command line's rules: the one-run overrides of the saved settings,
//! and `clock config set <key> <value>`.

use vstd::prelude::*;
use crate::config::{Config, Face, MAX_SCALE, clamp};
use crate::text::{lower_seq, unsigned_value, to_ascii_lowercase, str_eq, parse_unsigned, push_str};

verus! {

/// Settings given on the command line for one run; they are not saved.
pub struct Overrides {
    pub face: Option<Face>,
    pub hour12: bool,
    pub hour24: bool,
    pub seconds: bool,
    pub no_seconds: bool,
    pub date: bool,
    pub no_date: bool,
    pub color: Option<String>,
    pub accent_color: Option<String>,
    pub scale: Option<u8>,
}

/// `b` when `flag_on`, else `off` when `flag_off`, else `orig`; the "off"
/// flag is applied last and so wins.
pub open spec fn flagged(orig: bool, flag_on: bool, flag_off: bool) -> bool {
    if flag_off {
        false
    } else if flag_on {
        true
    } else {
        orig
    }
}

impl Overrides {
    /// `cfg` with every override that was given applied on top.
    pub fn apply(&self, cfg: Config) -> (r: Config)
        ensures
            r.face == (match self.face {
                Some(f) => f,
                None => cfg.face,
            }),
            r.hour12 == flagged(cfg.hour12, self.hour12, self.hour24),
            r.show_seconds == flagged(cfg.show_seconds, self.seconds, self.no_seconds),
            r.show_date == flagged(cfg.show_date, self.date, self.no_date),
            r.color@ == (match self.color {
                Some(c) => c@,
                None => cfg.color@,
            }),
            r.accent_color@ == (match self.accent_color {
                Some(c) => c@,
                None => cfg.accent_color@,
            }),
            r.scale == (match self.scale {
                Some(s) => s,
                None => cfg.scale,
            }),
            r.blink_colon == cfg.blink_colon,
            r.tick_marks == cfg.tick_marks,
            r.ghost_segments == cfg.ghost_segments,
            r.second_step == cfg.second_step,
    {
        let mut cfg = cfg;
        if let Some(face) = self.face {
            cfg.face = face;
        }
        if self.hour12 {
            cfg.hour12 = true;
        }
        if self.hour24 {
            cfg.hour12 = false;
        }
        if self.seconds {
            cfg.show_seconds = true;
        }
        if self.no_seconds {
            cfg.show_seconds = false;
        }
        if self.date {
            cfg.show_date = true;
        }
        if self.no_date {
            cfg.show_date = false;
        }
        if let Some(c) = &self.color {
            cfg.color = c.clone();
        }
        if let Some(c) = &self.accent_color {
            cfg.accent_color = c.clone();
        }
        if let Some(s) = self.scale {
            cfg.scale = s;
        }
        cfg
    }
}

/// Why `clock config set` refused a key or value.
#[derive(Debug)]
pub enum ConfigError {
    /// A yes/no setting got something else (the lowercased value).
    NotBool(String),
    /// An unknown face name (lowercased).
    UnknownFace(String),
    /// `second_step` was not a number.
    BadSecondStep,
    /// `scale` was not a number 0-255.
    BadScale,
    /// An unknown setting name.
    UnknownKey(String),
}

/// The yes/no words a boolean setting accepts, in any case.
pub open spec fn bool_word(v: Seq<char>) -> Option<bool> {
    let l = lower_seq(v);
    if l == "true"@ || l == "on"@ || l == "yes"@ || l == "1"@ {
        Some(true)
    } else if l == "false"@ || l == "off"@ || l == "no"@ || l == "0"@ {
        Some(false)
    } else {
        None
    }
}

/// The face a name stands for, in any case.
pub open spec fn face_named(v: Seq<char>) -> Option<Face> {
    let l = lower_seq(v);
    if l == "digital"@ {
        Some(Face::Digital)
    } else if l == "analog"@ {
        Some(Face::Analog)
    } else if l == "binary"@ {
        Some(Face::Binary)
    } else if l == "word"@ {
        Some(Face::Word)
    } else if l == "matrix"@ {
        Some(Face::Matrix)
    } else if l == "flip"@ {
        Some(Face::Flip)
    } else if l == "bars"@ {
        Some(Face::Bars)
    } else if l == "rings"@ {
        Some(Face::Rings)
    } else if l == "roman"@ {
        Some(Face::Roman)
    } else if l == "lcd"@ {
        Some(Face::Lcd)
    } else if l == "blocks"@ {
        Some(Face::Blocks)
    } else if l == "hourglass"@ {
        Some(Face::Hourglass)
    } else {
        None
    }
}

/// The outcome of setting a yes/no field: `Ok` with the field updated to the
/// word's value, or `NotBool` with nothing changed.
pub open spec fn bool_outcome(
    r: Result<(), ConfigError>,
    value: Seq<char>,
    unchanged: bool,
    updated_to: spec_fn(bool) -> bool,
) -> bool {
    match bool_word(value) {
        Some(b) => r is Ok && updated_to(b),
        None => (r matches Err(ConfigError::NotBool(v)) && v@ == lower_seq(value)) && unchanged,
    }
}

fn parse_bool(v: &str) -> (r: Result<bool, ConfigError>)
    ensures
        match bool_word(v@) {
            Some(b) => r == Ok::<bool, ConfigError>(b),
            None => r matches Err(ConfigError::NotBool(s)) && s@ == lower_seq(v@),
        },
{
    let l = to_ascii_lowercase(v);
    let s = l.as_str();
    if str_eq(s, "true") || str_eq(s, "on") || str_eq(s, "yes") || str_eq(s, "1") {
        Ok(true)
    } else if str_eq(s, "false") || str_eq(s, "off") || str_eq(s, "no") || str_eq(s, "0") {
        Ok(false)
    } else {
        Err(ConfigError::NotBool(l))
    }
}

fn parse_face(v: &str) -> (r: Result<Face, ConfigError>)
    ensures
        match face_named(v@) {
            Some(f) => r == Ok::<Face, ConfigError>(f),
            None => r matches Err(ConfigError::UnknownFace(s)) && s@ == lower_seq(v@),
        },
{
    let l = to_ascii_lowercase(v);
    let s = l.as_str();
    if str_eq(s, "digital") {
        Ok(Face::Digital)
    } else if str_eq(s, "analog") {
        Ok(Face::Analog)
    } else if str_eq(s, "binary") {
        Ok(Face::Binary)
    } else if str_eq(s, "word") {
        Ok(Face::Word)
    } else if str_eq(s, "matrix") {
        Ok(Face::Matrix)
    } else if str_eq(s, "flip") {
        Ok(Face::Flip)
    } else if str_eq(s, "bars") {
        Ok(Face::Bars)
    } else if str_eq(s, "rings") {
        Ok(Face::Rings)
    } else if str_eq(s, "roman") {
        Ok(Face::Roman)
    } else if str_eq(s, "lcd") {
        Ok(Face::Lcd)
    } else if str_eq(s, "blocks") {
        Ok(Face::Blocks)
    } else if str_eq(s, "hourglass") {
        Ok(Face::Hourglass)
    } else {
        Err(ConfigError::UnknownFace(l))
    }
}

/// Sets one saved setting from its name and a value, as typed on the
/// command line. Boolean settings take true/on/yes/1 or false/off/no/0 in
/// any case; `second_step` is held to 1-60 and `scale` to at most 9.
pub fn set_field(cfg: &mut Config, key: &str, value: &str) -> (r: Result<(), ConfigError>)
    ensures
        if key@ == "face"@ {
            match face_named(value@) {
                Some(f) => r is Ok && *final(cfg) == (Config { face: f, ..*old(cfg) }),
                None => (r matches Err(ConfigError::UnknownFace(v)) && v@ == lower_seq(value@)) && *final(cfg) == *old(cfg),
            }
        } else if key@ == "hour12"@ {
            bool_outcome(
                r,
                value@,
                *final(cfg) == *old(cfg),
                |b: bool| *final(cfg) == (Config { hour12: b, ..*old(cfg) }),
            )
        } else if key@ == "show_seconds"@ {
            bool_outcome(
                r,
                value@,
                *final(cfg) == *old(cfg),
                |b: bool| *final(cfg) == (Config { show_seconds: b, ..*old(cfg) }),
            )
        } else if key@ == "show_date"@ {
            bool_outcome(
                r,
                value@,
                *final(cfg) == *old(cfg),
                |b: bool| *final(cfg) == (Config { show_date: b, ..*old(cfg) }),
            )
        } else if key@ == "blink_colon"@ {
            bool_outcome(
                r,
                value@,
                *final(cfg) == *old(cfg),
                |b: bool| *final(cfg) == (Config { blink_colon: b, ..*old(cfg) }),
            )
        } else if key@ == "tick_marks"@ {
            bool_outcome(
                r,
                value@,
                *final(cfg) == *old(cfg),
                |b: bool| *final(cfg) == (Config { tick_marks: b, ..*old(cfg) }),
            )
        } else if key@ == "ghost_segments"@ {
            bool_outcome(
                r,
                value@,
                *final(cfg) == *old(cfg),
                |b: bool| *final(cfg) == (Config { ghost_segments: b, ..*old(cfg) }),
            )
        } else if key@ == "second_step"@ {
            match unsigned_value(value@, 10, u32::MAX as int) {
                Some(n) => r is Ok && *final(cfg) == (Config {
                    second_step: clamp(n, 1, 60) as u32,
                    ..*old(cfg)
                }),
                None => r matches Err(ConfigError::BadSecondStep) && *final(cfg) == *old(cfg),
            }
        } else if key@ == "scale"@ {
            match unsigned_value(value@, 10, 255) {
                Some(n) => r is Ok && *final(cfg) == (Config {
                    scale: (if n < MAX_SCALE { n } else { MAX_SCALE as int }) as u8,
                    ..*old(cfg)
                }),
                None => r matches Err(ConfigError::BadScale) && *final(cfg) == *old(cfg),
            }
        } else if key@ == "color"@ {
            r is Ok && final(cfg).color@ == value@ && *final(cfg) == (Config {
                color: final(cfg).color,
                ..*old(cfg)
            })
        } else if key@ == "accent_color"@ {
            r is Ok && final(cfg).accent_color@ == value@ && *final(cfg) == (Config {
                accent_color: final(cfg).accent_color,
                ..*old(cfg)
            })
        } else {
            (r matches Err(ConfigError::UnknownKey(k)) && k@ == key@) && *final(cfg) == *old(cfg)
        },
{
    if str_eq(key, "face") {
        let f = parse_face(value)?;
        cfg.face = f;
        Ok(())
    } else if str_eq(key, "hour12") {
        cfg.hour12 = parse_bool(value)?;
        Ok(())
    } else if str_eq(key, "show_seconds") {
        cfg.show_seconds = parse_bool(value)?;
        Ok(())
    } else if str_eq(key, "show_date") {
        cfg.show_date = parse_bool(value)?;
        Ok(())
    } else if str_eq(key, "blink_colon") {
        cfg.blink_colon = parse_bool(value)?;
        Ok(())
    } else if str_eq(key, "tick_marks") {
        cfg.tick_marks = parse_bool(value)?;
        Ok(())
    } else if str_eq(key, "ghost_segments") {
        cfg.ghost_segments = parse_bool(value)?;
        Ok(())
    } else if str_eq(key, "second_step") {
        match parse_unsigned(value, 10, 0xffff_ffff) {
            Some(n) => {
                let v = if n < 1 {
                    1
                } else if n > 60 {
                    60
                } else {
                    n
                };
                cfg.second_step = v as u32;
                Ok(())
            },
            None => Err(ConfigError::BadSecondStep),
        }
    } else if str_eq(key, "scale") {
        match parse_unsigned(value, 10, 255) {
            Some(n) => {
                let v = if n < MAX_SCALE as u64 {
                    n
                } else {
                    MAX_SCALE as u64
                };
                cfg.scale = v as u8;
                Ok(())
            },
            None => Err(ConfigError::BadScale),
        }
    } else if str_eq(key, "color") {
        cfg.color = String::from_str(value);
        Ok(())
    } else if str_eq(key, "accent_color") {
        cfg.accent_color = String::from_str(value);
        Ok(())
    } else {
        Err(ConfigError::UnknownKey(String::from_str(key)))
    }
}

impl ConfigError {
    /// The message the command line prints for this error.
    pub fn message(&self) -> (m: String)
        ensures
            m@ == match self {
                ConfigError::NotBool(v) => "expected true/false, got '"@ + v@ + "'"@,
                ConfigError::UnknownFace(v) => "unknown face '"@ + v@
                    + "' (expected one of: digital, analog, binary, word, matrix, flip, bars, rings, roman, lcd, hourglass, blocks)"@,
                ConfigError::BadSecondStep => "second_step must be a number 1-60"@,
                ConfigError::BadScale => "scale must be 0 (auto) or 1-9"@,
                ConfigError::UnknownKey(k) => "unknown key '"@ + k@
                    + "' (expected one of: face, hour12, show_seconds, show_date, blink_colon, tick_marks, ghost_segments, second_step, scale, color, accent_color)"@,
            },
    {
        match self {
            ConfigError::NotBool(v) => {
                let mut m = String::from_str("expected true/false, got '");
                push_str(&mut m, v.as_str());
                push_str(&mut m, "'");
                m
            },
            ConfigError::UnknownFace(v) => {
                let mut m = String::from_str("unknown face '");
                push_str(&mut m, v.as_str());
                push_str(
                    &mut m,
                    "' (expected one of: digital, analog, binary, word, matrix, flip, bars, rings, roman, lcd, hourglass, blocks)",
                );
                m
            },
            ConfigError::BadSecondStep => String::from_str("second_step must be a number 1-60"),
            ConfigError::BadScale => String::from_str("scale must be 0 (auto) or 1-9"),
            ConfigError::UnknownKey(k) => {
                let mut m = String::from_str("unknown key '");
                push_str(&mut m, k.as_str());
                push_str(
                    &mut m,
                    "' (expected one of: face, hour12, show_seconds, show_date, blink_colon, tick_marks, ghost_segments, second_step, scale, color, accent_color)",
                );
                m
            },
        }
    }
}


/// Names differ when their lengths or one of their first two letters do.
proof fn lemma_names_differ(a: Seq<char>, b: Seq<char>)
    requires
        a.len() != b.len() || (a.len() >= 2 && b.len() >= 2 && (a[0] != b[0] || a[1] != b[1])),
    ensures
        a != b,
{
}

/// Every face's own name, as `clock config show` writes it, is read back
/// as that face by `clock config set face`.
pub proof fn lemma_face_names_read_back(f: Face)
    ensures
        face_named(f.spec_name()) == Some(f),
{
    reveal_strlit("digital");
    reveal_strlit("analog");
    reveal_strlit("binary");
    reveal_strlit("word");
    reveal_strlit("matrix");
    reveal_strlit("flip");
    reveal_strlit("bars");
    reveal_strlit("rings");
    reveal_strlit("roman");
    reveal_strlit("lcd");
    reveal_strlit("blocks");
    reveal_strlit("hourglass");
    let n = f.spec_name();
    assert(lower_seq(n) =~= n);
    match f {
        Face::Digital => {
        },
        Face::Analog => {
            lemma_names_differ(n, "digital"@);
        },
        Face::Binary => {
            lemma_names_differ(n, "digital"@);
            lemma_names_differ(n, "analog"@);
        },
        Face::Word => {
            lemma_names_differ(n, "digital"@);
            lemma_names_differ(n, "analog"@);
            lemma_names_differ(n, "binary"@);
        },
        Face::Matrix => {
            lemma_names_differ(n, "digital"@);
            lemma_names_differ(n, "analog"@);
            lemma_names_differ(n, "binary"@);
            lemma_names_differ(n, "word"@);
        },
        Face::Flip => {
            lemma_names_differ(n, "digital"@);
            lemma_names_differ(n, "analog"@);
            lemma_names_differ(n, "binary"@);
            lemma_names_differ(n, "word"@);
            lemma_names_differ(n, "matrix"@);
        },
        Face::Bars => {
            lemma_names_differ(n, "digital"@);
            lemma_names_differ(n, "analog"@);
            lemma_names_differ(n, "binary"@);
            lemma_names_differ(n, "word"@);
            lemma_names_differ(n, "matrix"@);
            lemma_names_differ(n, "flip"@);
        },
        Face::Rings => {
            lemma_names_differ(n, "digital"@);
            lemma_names_differ(n, "analog"@);
            lemma_names_differ(n, "binary"@);
            lemma_names_differ(n, "word"@);
            lemma_names_differ(n, "matrix"@);
            lemma_names_differ(n, "flip"@);
            lemma_names_differ(n, "bars"@);
        },
        Face::Roman => {
            lemma_names_differ(n, "digital"@);
            lemma_names_differ(n, "analog"@);
            lemma_names_differ(n, "binary"@);
            lemma_names_differ(n, "word"@);
            lemma_names_differ(n, "matrix"@);
            lemma_names_differ(n, "flip"@);
            lemma_names_differ(n, "bars"@);
            lemma_names_differ(n, "rings"@);
        },
        Face::Lcd => {
            lemma_names_differ(n, "digital"@);
            lemma_names_differ(n, "analog"@);
            lemma_names_differ(n, "binary"@);
            lemma_names_differ(n, "word"@);
            lemma_names_differ(n, "matrix"@);
            lemma_names_differ(n, "flip"@);
            lemma_names_differ(n, "bars"@);
            lemma_names_differ(n, "rings"@);
            lemma_names_differ(n, "roman"@);
        },
        Face::Blocks => {
            lemma_names_differ(n, "digital"@);
            lemma_names_differ(n, "analog"@);
            lemma_names_differ(n, "binary"@);
            lemma_names_differ(n, "word"@);
            lemma_names_differ(n, "matrix"@);
            lemma_names_differ(n, "flip"@);
            lemma_names_differ(n, "bars"@);
            lemma_names_differ(n, "rings"@);
            lemma_names_differ(n, "roman"@);
            lemma_names_differ(n, "lcd"@);
        },
        Face::Hourglass => {
            lemma_names_differ(n, "digital"@);
            lemma_names_differ(n, "analog"@);
            lemma_names_differ(n, "binary"@);
            lemma_names_differ(n, "word"@);
            lemma_names_differ(n, "matrix"@);
            lemma_names_differ(n, "flip"@);
            lemma_names_differ(n, "bars"@);
            lemma_names_differ(n, "rings"@);
            lemma_names_differ(n, "roman"@);
            lemma_names_differ(n, "lcd"@);
            lemma_names_differ(n, "blocks"@);
        },
    }
}

} // verus!
