//! The interactive session's decisions: what each key press does to the
//! settings and the face picker, how the picker's selection moves, and how
//! long the clock may sleep before the display would go stale. The program
//! around the library reads the keys, sleeps and draws.

use vstd::prelude::*;
use crate::config::{Config, Face, FACE_COUNT, MAX_SCALE, clamp};

verus! {

/// Columns of the face picker's grid.
pub const PICKER_COLS: usize = 2;

/// Rows of the face picker's grid.
pub open spec fn picker_rows() -> int {
    (FACE_COUNT as int + PICKER_COLS as int - 1) / (PICKER_COLS as int)
}

/// The picker selection after moving by `(dcol, drow)`: clamped at the grid
/// edges, and unchanged when it would land on a trailing empty cell.
pub open spec fn moved_selection(selected: int, dcol: int, drow: int) -> int {
    let row = selected / (PICKER_COLS as int);
    let col = selected % (PICKER_COLS as int);
    let new_col = clamp(col + dcol, 0, PICKER_COLS as int - 1);
    let new_row = clamp(row + drow, 0, picker_rows() - 1);
    let idx = new_row * (PICKER_COLS as int) + new_col;
    if idx < FACE_COUNT {
        idx
    } else {
        selected
    }
}

/// Moves the picker's grid selection by `(dcol, drow)`, clamping at the grid
/// edges and refusing to land on a trailing empty cell.
pub fn move_selection(selected: usize, dcol: i32, drow: i32) -> (r: usize)
    requires
        selected < FACE_COUNT,
        dcol <= i32::MAX - 1,
        drow <= i32::MAX - 6,
    ensures
        r == moved_selection(selected as int, dcol as int, drow as int),
        r < FACE_COUNT,
{
    let n = FACE_COUNT;
    let rows = (n + PICKER_COLS - 1) / PICKER_COLS;
    let row = selected / PICKER_COLS;
    let col = selected % PICKER_COLS;
    let c = col as i32 + dcol;
    let new_col: i32 = if c < 0 {
        0
    } else if c > PICKER_COLS as i32 - 1 {
        PICKER_COLS as i32 - 1
    } else {
        c
    };
    let rr = row as i32 + drow;
    let new_row: i32 = if rr < 0 {
        0
    } else if rr > rows as i32 - 1 {
        rows as i32 - 1
    } else {
        rr
    };
    let idx = new_row as usize * PICKER_COLS + new_col as usize;
    if idx < n {
        idx
    } else {
        selected
    }
}

/// How often the display can change: every 500ms to blink the colon of the
/// digital and matrix faces, every second for a seconds readout, or once a
/// minute.
pub open spec fn wake_period(cfg: Config) -> int {
    if cfg.blink_colon && (cfg.face == Face::Digital || cfg.face == Face::Matrix) {
        500
    } else if cfg.show_seconds {
        1000
    } else {
        60_000
    }
}

/// Milliseconds until the next period boundary after `now_ms`, held to at
/// least 10ms.
pub open spec fn wake_delay(cfg: Config, now_ms: int) -> int {
    let p = wake_period(cfg);
    clamp(p - now_ms % p, 10, p)
}

/// How long the clock may sleep before the on-screen display would go
/// stale, in milliseconds.
pub fn next_wake(cfg: &Config, now_ms: i64) -> (ms: u64)
    ensures
        ms == wake_delay(*cfg, now_ms as int),
        10 <= ms <= 60_000,
{
    let period_ms: i64 = if cfg.blink_colon && (match cfg.face {
        Face::Digital | Face::Matrix => true,
        _ => false,
    }) {
        500
    } else if cfg.show_seconds {
        1000
    } else {
        60_000
    };
    let rem = now_ms.checked_rem_euclid(period_ms).unwrap();
    let remainder = period_ms - rem;
    let d = if remainder < 10 {
        10
    } else if remainder > period_ms {
        period_ms
    } else {
        remainder
    };
    d as u64
}

/// A key press, as the session sees it.
#[derive(Clone, Copy, Debug, PartialEq, Eq, Structural)]
pub enum Key {
    /// A character key; `ctrl` when Control was held.
    Char { c: char, ctrl: bool },
    Esc,
    Enter,
    Left,
    Right,
    Up,
    Down,
    Tab,
    /// Any other key.
    Other,
}

/// What the event loop does after a key.
#[derive(Clone, Copy, Debug, PartialEq, Eq, Structural)]
pub enum Step {
    Continue,
    Quit,
}

/// The session's state: the live settings, the face picker's selection
/// while it is open, and whether the screen must be cleared before the
/// next frame.
pub struct Session {
    pub cfg: Config,
    pub picker: Option<usize>,
    pub needs_clear: bool,
}

pub open spec fn is_char(key: Key, ch: char) -> bool {
    key matches Key::Char { c, .. } && c == ch
}

pub open spec fn with_face(s: Session, f: Face) -> Session {
    Session { cfg: Config { face: f, ..s.cfg }, ..s }
}

/// The session after `key`, and whether the clock keeps running.
pub open spec fn after_key(s: Session, key: Key) -> (Session, Step) {
    match s.picker {
        Some(sel) => {
            if key == Key::Esc {
                (Session { picker: None, needs_clear: true, ..s }, Step::Continue)
            } else if is_char(key, 'q') {
                (s, Step::Quit)
            } else if key == Key::Enter {
                (
                    Session {
                        cfg: Config { face: Face::spec_at(sel as int), ..s.cfg },
                        picker: None,
                        needs_clear: true,
                    },
                    Step::Continue,
                )
            } else if key == Key::Left {
                (Session { picker: Some(moved_selection(sel as int, -1, 0) as usize), ..s }, Step::Continue)
            } else if key == Key::Right {
                (Session { picker: Some(moved_selection(sel as int, 1, 0) as usize), ..s }, Step::Continue)
            } else if key == Key::Up {
                (Session { picker: Some(moved_selection(sel as int, 0, -1) as usize), ..s }, Step::Continue)
            } else if key == Key::Down {
                (Session { picker: Some(moved_selection(sel as int, 0, 1) as usize), ..s }, Step::Continue)
            } else {
                (s, Step::Continue)
            }
        },
        None => {
            if is_char(key, 'q') || key == Key::Esc || key == (Key::Char { c: 'c', ctrl: true }) {
                (s, Step::Quit)
            } else if key == Key::Left {
                (Session {
                    cfg: Config {
                        face: Face::spec_at((s.cfg.face.spec_index() + FACE_COUNT - 1) % (FACE_COUNT as int)),
                        ..s.cfg
                    },
                    needs_clear: true,
                    ..s
                }, Step::Continue)
            } else if key == Key::Right {
                (Session {
                    cfg: Config {
                        face: Face::spec_at((s.cfg.face.spec_index() + 1) % (FACE_COUNT as int)),
                        ..s.cfg
                    },
                    needs_clear: true,
                    ..s
                }, Step::Continue)
            } else if key == Key::Tab {
                (Session { picker: Some(s.cfg.face.spec_index() as usize), needs_clear: true, ..s }, Step::Continue)
            } else if is_char(key, 't') {
                (Session { cfg: Config { hour12: !s.cfg.hour12, ..s.cfg }, ..s }, Step::Continue)
            } else if is_char(key, 's') {
                (Session {
                    cfg: Config { show_seconds: !s.cfg.show_seconds, ..s.cfg },
                    needs_clear: true,
                    ..s
                }, Step::Continue)
            } else if is_char(key, '+') || is_char(key, '=') {
                (Session {
                    cfg: Config {
                        scale: (if s.cfg.scale + 1 < MAX_SCALE { s.cfg.scale + 1 } else { MAX_SCALE as int }) as u8,
                        ..s.cfg
                    },
                    needs_clear: true,
                    ..s
                }, Step::Continue)
            } else if is_char(key, '0') {
                (Session { cfg: Config { scale: 0, ..s.cfg }, needs_clear: true, ..s }, Step::Continue)
            } else if is_char(key, '-') {
                (Session {
                    cfg: Config {
                        scale: (if s.cfg.scale - 1 > 1 { s.cfg.scale - 1 } else { 1 }) as u8,
                        ..s.cfg
                    },
                    needs_clear: true,
                    ..s
                }, Step::Continue)
            } else {
                (s, Step::Continue)
            }
        },
    }
}

impl Session {
    /// The picker, when open, selects an existing face.
    pub open spec fn wf(self) -> bool {
        self.picker matches Some(sel) ==> sel < FACE_COUNT
    }

    /// A new session: picker closed, screen to be cleared.
    pub fn new(cfg: Config) -> (s: Session)
        ensures
            s.cfg == cfg,
            s.picker is None,
            s.needs_clear,
            s.wf(),
    {
        Session { cfg, picker: None, needs_clear: true }
    }

    /// The terminal was resized: redraw from a clear screen.
    pub fn resized(&mut self)
        ensures
            *final(self) == (Session { needs_clear: true, ..*old(self) }),
    {
        self.needs_clear = true;
    }

    /// The screen has been cleared.
    pub fn cleared(&mut self)
        ensures
            *final(self) == (Session { needs_clear: false, ..*old(self) }),
    {
        self.needs_clear = false;
    }

    /// Applies one key press.
    pub fn handle_key(&mut self, key: Key) -> (step: Step)
        requires
            old(self).wf(),
        ensures
            (*final(self), step) == after_key(*old(self), key),
            final(self).wf(),
    {
        match self.picker {
            Some(selected) => {
                match key {
                    Key::Esc => {
                        self.picker = None;
                        self.needs_clear = true;
                    },
                    Key::Char { c: 'q', .. } => {
                        return Step::Quit;
                    },
                    Key::Enter => {
                        self.cfg.face = Face::from_index(selected);
                        self.picker = None;
                        self.needs_clear = true;
                    },
                    Key::Left => self.picker = Some(move_selection(selected, -1, 0)),
                    Key::Right => self.picker = Some(move_selection(selected, 1, 0)),
                    Key::Up => self.picker = Some(move_selection(selected, 0, -1)),
                    Key::Down => self.picker = Some(move_selection(selected, 0, 1)),
                    _ => {},
                }
            },
            None => {
                match key {
                    Key::Char { c: 'q', .. } | Key::Esc => {
                        return Step::Quit;
                    },
                    Key::Char { c: 'c', ctrl: true } => {
                        return Step::Quit;
                    },
                    Key::Left => {
                        self.cfg.face = self.cfg.face.prev();
                        self.needs_clear = true;
                    },
                    Key::Right => {
                        self.cfg.face = self.cfg.face.next();
                        self.needs_clear = true;
                    },
                    Key::Tab => {
                        self.picker = Some(self.cfg.face.index());
                        self.needs_clear = true;
                    },
                    Key::Char { c: 't', .. } => self.cfg.hour12 = !self.cfg.hour12,
                    Key::Char { c: 's', .. } => {
                        self.cfg.show_seconds = !self.cfg.show_seconds;
                        self.needs_clear = true;
                    },
                    Key::Char { c: '+', .. } | Key::Char { c: '=', .. } => {
                        self.cfg.scale = if self.cfg.scale < MAX_SCALE {
                            self.cfg.scale + 1
                        } else {
                            MAX_SCALE
                        };
                        self.needs_clear = true;
                    },
                    Key::Char { c: '0', .. } => {
                        self.cfg.scale = 0;
                        self.needs_clear = true;
                    },
                    Key::Char { c: '-', .. } => {
                        let down = if self.cfg.scale > 0 {
                            self.cfg.scale - 1
                        } else {
                            0
                        };
                        self.cfg.scale = if down > 1 {
                            down
                        } else {
                            1
                        };
                        self.needs_clear = true;
                    },
                    _ => {},
                }
            },
        }
        Step::Continue
    }
}

/// In the face picker, the selection always names an existing face, and
/// every key keeps it so.
pub proof fn lemma_picker_stays_valid(s: Session, key: Key)
    requires
        s.wf(),
    ensures
        after_key(s, key).0.wf(),
{
}

/// Stepping to the next face and then back returns to the face one started
/// from; stepping back and then forward does too.
pub proof fn lemma_face_cycle_undo(s: Session)
    requires
        s.picker is None,
    ensures
        after_key(after_key(s, Key::Right).0, Key::Left).0.cfg.face == s.cfg.face,
        after_key(after_key(s, Key::Left).0, Key::Right).0.cfg.face == s.cfg.face,
{
    crate::config::lemma_face_index_roundtrip(s.cfg.face);
}

/// Growing the clock never goes past the largest size, 9; shrinking never goes below
/// size 1, and takes off one step at a time.
pub proof fn lemma_size_keys_bounded(s: Session, key: Key)
    requires
        s.picker is None,
    ensures
        is_char(key, '+') || is_char(key, '=') ==> 1 <= after_key(s, key).0.cfg.scale <= MAX_SCALE,
        is_char(key, '-') ==> 1 <= after_key(s, key).0.cfg.scale && (after_key(s, key).0.cfg.scale
            == s.cfg.scale - 1 || after_key(s, key).0.cfg.scale == 1),
{
}

/// `changed` when the session changed the setting, else the saved value.
pub open spec fn kept<T>(saved: T, start: T, end: T) -> T {
    if end != start {
        end
    } else {
        saved
    }
}

/// The configuration to save when the session ends: the saved settings,
/// with the face, 12/24h, seconds and size taken from the session wherever
/// the session changed them. One-run overrides the session started with are
/// not saved.
pub fn remembered(saved: &Config, start: &Config, end: &Config) -> (r: Config)
    ensures
        r == (Config {
            face: kept(saved.face, start.face, end.face),
            hour12: kept(saved.hour12, start.hour12, end.hour12),
            show_seconds: kept(saved.show_seconds, start.show_seconds, end.show_seconds),
            scale: kept(saved.scale, start.scale, end.scale),
            ..*saved
        }),
{
    Config {
        face: if end.face != start.face {
            end.face
        } else {
            saved.face
        },
        hour12: if end.hour12 != start.hour12 {
            end.hour12
        } else {
            saved.hour12
        },
        show_seconds: if end.show_seconds != start.show_seconds {
            end.show_seconds
        } else {
            saved.show_seconds
        },
        scale: if end.scale != start.scale {
            end.scale
        } else {
            saved.scale
        },
        show_date: saved.show_date,
        blink_colon: saved.blink_colon,
        tick_marks: saved.tick_marks,
        ghost_segments: saved.ghost_segments,
        second_step: saved.second_step,
        color: saved.color.clone(),
        accent_color: saved.accent_color.clone(),
    }
}

/// A session that switched nothing saves the configuration unchanged, even
/// when it ran with one-run overrides; a setting switched during the session
/// is saved as it was left.
pub proof fn lemma_overrides_not_saved(saved: Config, start: Config, end: Config)
    ensures
        (end.face == start.face && end.hour12 == start.hour12 && end.show_seconds == start.show_seconds
            && end.scale == start.scale) ==> (Config {
            face: kept(saved.face, start.face, end.face),
            hour12: kept(saved.hour12, start.hour12, end.hour12),
            show_seconds: kept(saved.show_seconds, start.show_seconds, end.show_seconds),
            scale: kept(saved.scale, start.scale, end.scale),
            ..saved
        }) == saved,
        end.face != start.face ==> kept(saved.face, start.face, end.face) == end.face,
{
}


/// The clock sleeps until the display next changes: the delay ends exactly
/// on the next period boundary (500 ms, one second or one minute), except
/// when that boundary is under 10 ms away.
pub proof fn lemma_wake_on_boundary(cfg: Config, now_ms: int)
    requires
        wake_period(cfg) - now_ms % wake_period(cfg) >= 10,
    ensures
        0 < wake_delay(cfg, now_ms) <= wake_period(cfg),
        (now_ms + wake_delay(cfg, now_ms)) % wake_period(cfg) == 0,
{
    let p = wake_period(cfg);
    let r = now_ms % p;
    let q = now_ms / p;
    assert(now_ms == p * q + r && 0 <= r < p) by (nonlinear_arith)
        requires p > 0, r == now_ms % p, q == now_ms / p;
    assert(now_ms + (p - r) == p * (q + 1)) by (nonlinear_arith)
        requires now_ms == p * q + r;
    vstd::arithmetic::div_mod::lemma_mod_multiples_basic(q + 1, p);
}


/// Opening the picker starts on the face being shown, so confirming without
/// moving keeps that face, and cancelling leaves the settings as they were.
pub proof fn lemma_picker_round_trip(s: Session)
    requires
        s.picker is None,
    ensures
        after_key(after_key(s, Key::Tab).0, Key::Enter).0.cfg == s.cfg,
        after_key(after_key(s, Key::Tab).0, Key::Esc).0.cfg == s.cfg,
        after_key(after_key(s, Key::Tab).0, Key::Enter).0.picker is None,
        after_key(after_key(s, Key::Tab).0, Key::Esc).0.picker is None,
{
    crate::config::lemma_face_index_roundtrip(s.cfg.face);
}

/// In the face picker the arrow keys walk the grid of faces, `PICKER_COLS`
/// to a row: Up goes to the face one row above (staying put on the top
/// row), Down to the one row below (staying put on the bottom row), Left
/// and Right to the neighbour in the same row (staying put at its ends).
/// None of them changes the settings or stops the clock, and Up then Down
/// (or Down then Up) from a row that has a neighbour comes back to the same
/// face.
pub proof fn lemma_picker_arrows(s: Session, sel: usize)
    requires
        s.picker == Some(sel),
        sel < FACE_COUNT,
    ensures
        after_key(s, Key::Up).0.picker == Some(
            (if sel >= PICKER_COLS { sel - PICKER_COLS } else { sel as int }) as usize,
        ),
        after_key(s, Key::Down).0.picker == Some(
            (if sel + PICKER_COLS < FACE_COUNT { sel + PICKER_COLS } else { sel as int }) as usize,
        ),
        after_key(s, Key::Left).0.picker == Some(
            (if sel % PICKER_COLS != 0 { sel - 1 } else { sel as int }) as usize,
        ),
        after_key(s, Key::Right).0.picker == Some(
            (if sel % PICKER_COLS != PICKER_COLS - 1 && sel + 1 < FACE_COUNT { sel + 1 } else { sel as int }) as usize,
        ),
        after_key(s, Key::Up).0.cfg == s.cfg && after_key(s, Key::Up).1 == Step::Continue,
        after_key(s, Key::Down).0.cfg == s.cfg && after_key(s, Key::Down).1 == Step::Continue,
        after_key(s, Key::Left).0.cfg == s.cfg && after_key(s, Key::Left).1 == Step::Continue,
        after_key(s, Key::Right).0.cfg == s.cfg && after_key(s, Key::Right).1 == Step::Continue,
        sel >= PICKER_COLS ==> after_key(after_key(s, Key::Up).0, Key::Down).0.picker == Some(sel),
        sel + PICKER_COLS < FACE_COUNT ==> after_key(after_key(s, Key::Down).0, Key::Up).0.picker == Some(sel),
{
}

} // verus!
