//! The analog face's two layers: the rim and ticks, and the hands. Drawing
//! them is done with floating-point geometry on braille canvases, left to
//! the program around the library; combining them is here.

use vstd::prelude::*;
use crate::text::push_char;

verus! {

pub struct Rendered {
    /// Rim + hour ticks, meant to be drawn in the primary color.
    pub face: Vec<String>,
    /// Hour/minute/second hands, meant to be drawn in the accent color.
    pub hands: Vec<String>,
}

/// One row of the single-color preview: a hand's character wherever the
/// hands layer is not blank, else the face's; as long as the shorter row.
pub open spec fn overlay_row(face: Seq<char>, hands: Seq<char>) -> Seq<char> {
    let n = if face.len() < hands.len() {
        face.len()
    } else {
        hands.len()
    };
    Seq::new(n, |i: int| if hands[i] != ' ' { hands[i] } else { face[i] })
}

impl Rendered {
    /// Face and hands on one layer, for a single-color preview; as many rows
    /// as the shorter layer has.
    pub fn mono(&self) -> (lines: Vec<String>)
        ensures
            lines@.len() == (if self.face@.len() < self.hands@.len() {
                self.face@.len()
            } else {
                self.hands@.len()
            }),
            forall|r: int|
                0 <= r < lines@.len() ==> (#[trigger] lines@[r])@ == overlay_row(
                    self.face@[r]@,
                    self.hands@[r]@,
                ),
    {
        let rows = if self.face.len() < self.hands.len() {
            self.face.len()
        } else {
            self.hands.len()
        };
        let mut lines: Vec<String> = Vec::new();
        let mut r: usize = 0;
        while r < rows
            invariant
                rows == (if self.face@.len() < self.hands@.len() {
                    self.face@.len()
                } else {
                    self.hands@.len()
                }),
                r <= rows,
                lines@.len() == r,
                forall|k: int|
                    0 <= k < r ==> (#[trigger] lines@[k])@ == overlay_row(self.face@[k]@, self.hands@[k]@),
            decreases rows - r,
        {
            let f = self.face[r].as_str();
            let h = self.hands[r].as_str();
            let fl = f.unicode_len();
            let hl = h.unicode_len();
            let n = if fl < hl {
                fl
            } else {
                hl
            };
            let mut line = String::new();
            let mut i: usize = 0;
            while i < n
                invariant
                    fl == f@.len(),
                    hl == h@.len(),
                    n == (if fl < hl { fl } else { hl }),
                    i <= n,
                    line@ == Seq::new(i as nat, |k: int| if h@[k] != ' ' { h@[k] } else { f@[k] }),
                decreases n - i,
            {
                let hc = h.get_char(i);
                let ch = if hc != ' ' {
                    hc
                } else {
                    f.get_char(i)
                };
                push_char(&mut line, ch);
                assert(line@ =~= Seq::new((i + 1) as nat, |k: int| if h@[k] != ' ' { h@[k] } else { f@[k] }));
                i += 1;
            }
            assert(line@ =~= overlay_row(f@, h@));
            lines.push(line);
            r += 1;
        }
        lines
    }
}

} // verus!
