//! Drawing glasses and puzzles as text.
//!
//! A glass is drawn from its top slot down to the bottom, one line per
//! slot: the glyph of the ball in the slot between two walls, or a blank
//! where the slot is free. A line for the base closes the glass.

use vstd::prelude::*;
use vstd::string::StringExecFns;
use crate::game::{columns_of, Game};
use crate::glass::{Column, Glass};

verus! {

/// The line for one slot of a glass; slot 0 is the bottom.
pub open spec fn slot_line(glass: Column, slot: int) -> Seq<char> {
    seq![
        '|',
        if 0 <= slot < glass.balls.len() {
            glass.balls[slot].glyph()
        } else {
            ' '
        },
        '|',
        '\n',
    ]
}

/// The lines for the lowest `slots` slots of a glass, the highest of them
/// first.
pub open spec fn slot_lines(glass: Column, slots: nat) -> Seq<char>
    decreases slots,
{
    if slots == 0 {
        Seq::empty()
    } else {
        slot_line(glass, slots - 1) + slot_lines(glass, (slots - 1) as nat)
    }
}

/// The line that closes a glass at the bottom.
pub open spec fn base_line() -> Seq<char> {
    seq!['\\', '_', '/', '\n']
}

/// The drawing of a glass: a line for each slot, top first, then the base.
pub open spec fn glass_drawing(glass: Column) -> Seq<char> {
    slot_lines(glass, glass.capacity) + base_line()
}

/// The drawing of a row of glasses: one drawing after the other from the
/// left, each followed by an empty line.
pub open spec fn row_drawing(glasses: Seq<Column>) -> Seq<char>
    decreases glasses.len(),
{
    if glasses.len() == 0 {
        Seq::empty()
    } else {
        row_drawing(glasses.drop_last()) + glass_drawing(glasses.last()) + seq!['\n']
    }
}

impl Glass {
    /// The glass as text.
    pub fn render(&self) -> (text: String)
        ensures
            text@ == glass_drawing(self@),
    {
        let balls = self.balls();
        let mut text = String::new();
        let mut slot: usize = self.size() as usize;
        while slot > 0
            invariant
                slot <= self@.capacity,
                balls@ == self@.balls,
                text@ + slot_lines(self@, slot as nat) == slot_lines(self@, self@.capacity),
            decreases slot,
        {
            slot -= 1;
            proof {
                reveal_strlit("|");
                reveal_strlit(" ");
                reveal_strlit("|\n");
            }
            let ghost before = text@;
            text.append("|");
            if slot < balls.len() {
                text.append(balls[slot].symbol());
            } else {
                text.append(" ");
            }
            text.append("|\n");
            assert(text@ == before + slot_line(self@, slot as int));
            assert(before + slot_line(self@, slot as int) + slot_lines(self@, slot as nat)
                == before + (slot_line(self@, slot as int) + slot_lines(self@, slot as nat)));
        }
        proof {
            reveal_strlit("\\_/\n");
        }
        text.append("\\_/\n");
        text
    }
}

impl Game {
    /// The puzzle as text: the drawings of its glasses from left to right.
    pub fn render(&self) -> (text: String)
        ensures
            text@ == row_drawing(self@.columns),
    {
        let glasses = self.glasses();
        let mut text = String::new();
        let mut i: usize = 0;
        while i < glasses.len()
            invariant
                i <= glasses@.len(),
                columns_of(glasses@) == self@.columns,
                text@ == row_drawing(self@.columns.take(i as int)),
            decreases glasses@.len() - i,
        {
            let drawing = glasses[i].render();
            proof {
                reveal_strlit("\n");
                let done = self@.columns.take(i + 1);
                assert(done.drop_last() == self@.columns.take(i as int));
                assert(done.last() == glasses@[i as int]@);
            }
            text.append(drawing.as_str());
            text.append("\n");
            i += 1;
        }
        assert(self@.columns.take(i as int) == self@.columns);
        text
    }
}

} // verus!
