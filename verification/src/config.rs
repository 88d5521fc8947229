//! The persisted user configuration: which face to draw, the colors, and the
//! display options. Reading and writing the file is left to the program
//! around the library; this module holds the model and its rules.

use vstd::prelude::*;

verus! {

/// The largest size a user may pin with `scale` (0 means auto-fill).
pub const MAX_SCALE: u8 = 9;

/// The number of clock faces.
pub const FACE_COUNT: usize = 12;

/// A clock face, in the order in which the face picker and the arrow keys
/// cycle through them.
#[derive(Clone, Copy, Debug, PartialEq, Eq, Structural)]
pub enum Face {
    Digital,
    Analog,
    Binary,
    Word,
    Matrix,
    Flip,
    Bars,
    Rings,
    Roman,
    Lcd,
    Blocks,
    Hourglass,
}

impl Face {
    /// Position of the face in the cycling order.
    pub open spec fn spec_index(self) -> int {
        match self {
            Face::Digital => 0,
            Face::Analog => 1,
            Face::Binary => 2,
            Face::Word => 3,
            Face::Matrix => 4,
            Face::Flip => 5,
            Face::Bars => 6,
            Face::Rings => 7,
            Face::Roman => 8,
            Face::Lcd => 9,
            Face::Blocks => 10,
            Face::Hourglass => 11,
        }
    }

    /// The face at position `i` of the cycling order.
    pub open spec fn spec_at(i: int) -> Face {
        if i == 0 {
            Face::Digital
        } else if i == 1 {
            Face::Analog
        } else if i == 2 {
            Face::Binary
        } else if i == 3 {
            Face::Word
        } else if i == 4 {
            Face::Matrix
        } else if i == 5 {
            Face::Flip
        } else if i == 6 {
            Face::Bars
        } else if i == 7 {
            Face::Rings
        } else if i == 8 {
            Face::Roman
        } else if i == 9 {
            Face::Lcd
        } else if i == 10 {
            Face::Blocks
        } else {
            Face::Hourglass
        }
    }

    /// The lowercase name used in the config file and on the command line.
    pub open spec fn spec_name(self) -> Seq<char> {
        match self {
            Face::Digital => "digital"@,
            Face::Analog => "analog"@,
            Face::Binary => "binary"@,
            Face::Word => "word"@,
            Face::Matrix => "matrix"@,
            Face::Flip => "flip"@,
            Face::Bars => "bars"@,
            Face::Rings => "rings"@,
            Face::Roman => "roman"@,
            Face::Lcd => "lcd"@,
            Face::Blocks => "blocks"@,
            Face::Hourglass => "hourglass"@,
        }
    }

    pub fn index(self) -> (r: usize)
        ensures
            r == self.spec_index(),
            r < FACE_COUNT,
    {
        match self {
            Face::Digital => 0,
            Face::Analog => 1,
            Face::Binary => 2,
            Face::Word => 3,
            Face::Matrix => 4,
            Face::Flip => 5,
            Face::Bars => 6,
            Face::Rings => 7,
            Face::Roman => 8,
            Face::Lcd => 9,
            Face::Blocks => 10,
            Face::Hourglass => 11,
        }
    }

    pub fn from_index(i: usize) -> (f: Face)
        requires
            i < FACE_COUNT,
        ensures
            f == Face::spec_at(i as int),
            f.spec_index() == i,
    {
        if i == 0 {
            Face::Digital
        } else if i == 1 {
            Face::Analog
        } else if i == 2 {
            Face::Binary
        } else if i == 3 {
            Face::Word
        } else if i == 4 {
            Face::Matrix
        } else if i == 5 {
            Face::Flip
        } else if i == 6 {
            Face::Bars
        } else if i == 7 {
            Face::Rings
        } else if i == 8 {
            Face::Roman
        } else if i == 9 {
            Face::Lcd
        } else if i == 10 {
            Face::Blocks
        } else {
            Face::Hourglass
        }
    }

    /// The next face in the cycle, wrapping from the last to the first.
    pub fn next(self) -> (f: Face)
        ensures
            f.spec_index() == (self.spec_index() + 1) % (FACE_COUNT as int),
    {
        Face::from_index((self.index() + 1) % FACE_COUNT)
    }

    /// The previous face in the cycle, wrapping from the first to the last.
    pub fn prev(self) -> (f: Face)
        ensures
            f.spec_index() == (self.spec_index() + FACE_COUNT - 1) % (FACE_COUNT as int),
    {
        Face::from_index((self.index() + FACE_COUNT - 1) % FACE_COUNT)
    }

    /// The face's name, as shown in the picker and written to the config.
    pub fn name(self) -> (s: &'static str)
        ensures
            s@ == self.spec_name(),
    {
        match self {
            Face::Digital => "digital",
            Face::Analog => "analog",
            Face::Binary => "binary",
            Face::Word => "word",
            Face::Matrix => "matrix",
            Face::Flip => "flip",
            Face::Bars => "bars",
            Face::Rings => "rings",
            Face::Roman => "roman",
            Face::Lcd => "lcd",
            Face::Blocks => "blocks",
            Face::Hourglass => "hourglass",
        }
    }
}

/// Every face sits at the position that `spec_at` gives for its index.
pub proof fn lemma_face_index_roundtrip(f: Face)
    ensures
        0 <= f.spec_index() < FACE_COUNT,
        Face::spec_at(f.spec_index()) == f,
{
}

/// Stepping forward and then back (or back and then forward) returns to the
/// face one started from.
pub proof fn lemma_next_prev_inverse(f: Face, g: Face)
    ensures
        g.spec_index() == (f.spec_index() + 1) % (FACE_COUNT as int) ==> (g.spec_index()
            + FACE_COUNT - 1) % (FACE_COUNT as int) == f.spec_index(),
        g.spec_index() == (f.spec_index() + FACE_COUNT - 1) % (FACE_COUNT as int) ==> (
        g.spec_index() + 1) % (FACE_COUNT as int) == f.spec_index(),
{
}

pub fn default_true() -> (b: bool)
    ensures
        b,
{
    true
}

pub fn default_scale() -> (s: u8)
    ensures
        s == 2,
{
    2
}

pub fn default_color() -> (s: String)
    ensures
        s@ == "cyan"@,
{
    String::from_str("cyan")
}

pub fn default_accent() -> (s: String)
    ensures
        s@ == "magenta"@,
{
    String::from_str("magenta")
}

#[derive(Clone, Debug)]
pub struct Config {
    /// Which clock face to draw.
    pub face: Face,
    /// 12-hour clock with am/pm vs. 24-hour.
    pub hour12: bool,
    /// Show a seconds readout / second hand.
    pub show_seconds: bool,
    /// Show today's date under the clock.
    pub show_date: bool,
    /// Blink the ':' separators once a second.
    pub blink_colon: bool,
    /// Draw hour tick marks around the rim (analog face).
    pub tick_marks: bool,
    /// Leave the unlit segments faintly visible (lcd face).
    pub ghost_segments: bool,
    /// Seconds readouts advance in steps of this many seconds.
    pub second_step: u32,
    /// Size of the clock: 0 auto-fills the terminal, 1-9 pins a size.
    pub scale: u8,
    /// Primary color: digit / clock-face color.
    pub color: String,
    /// Accent color: blinking colon / clock hands.
    pub accent_color: String,
}

impl Default for Config {
    fn default() -> (c: Self)
        ensures
            c.face == Face::Digital,
            c.hour12,
            c.show_seconds,
            c.show_date,
            c.blink_colon,
            c.tick_marks,
            c.ghost_segments,
            c.second_step == 1,
            c.scale == 2,
            c.color@ == "cyan"@,
            c.accent_color@ == "magenta"@,
    {
        Config {
            face: Face::Digital,
            hour12: default_true(),
            show_seconds: default_true(),
            show_date: default_true(),
            blink_colon: default_true(),
            tick_marks: default_true(),
            ghost_segments: default_true(),
            second_step: 1,
            scale: default_scale(),
            color: default_color(),
            accent_color: default_accent(),
        }
    }
}

/// `v` limited to the range `lo..=hi`.
pub open spec fn clamp(v: int, lo: int, hi: int) -> int {
    if v < lo {
        lo
    } else if v > hi {
        hi
    } else {
        v
    }
}

/// The seconds step that is actually used: a step of 0 counts as 1.
pub open spec fn effective_step(step: u32) -> int {
    if step == 0 {
        1
    } else {
        step as int
    }
}

/// `second` rounded down to a multiple of `step`.
pub open spec fn stepped(second: int, step: int) -> int {
    second / step * step
}

impl Config {
    /// The scale limited to the sizes the fixed-size faces support, 1-4.
    pub fn scale_clamped(&self) -> (s: u8)
        ensures
            s == clamp(self.scale as int, 1, 4),
    {
        if self.scale < 1 {
            1
        } else if self.scale > 4 {
            4
        } else {
            self.scale
        }
    }

    /// The size to draw at: the pinned scale, or `auto` when the scale is 0
    /// (auto-fill).
    pub fn resolve_scale(&self, auto: usize) -> (s: usize)
        ensures
            s == (if self.scale == 0 {
                auto as int
            } else {
                self.scale as int
            }),
    {
        if self.scale == 0 {
            auto
        } else {
            self.scale as usize
        }
    }

    /// The seconds value to show: `second` rounded down to a multiple of
    /// `second_step`.
    pub fn step_second(&self, second: u32) -> (s: u32)
        ensures
            s == stepped(second as int, effective_step(self.second_step)),
            s <= second,
    {
        let step = if self.second_step == 0 {
            1
        } else {
            self.second_step
        };
        assert(second / step * step <= second) by (nonlinear_arith)
            requires step >= 1;
        second / step * step
    }
}

} // verus!
