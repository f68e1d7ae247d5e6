//! The colours of the balls.

use vstd::prelude::*;

verus! {

/// A ball, identified by its colour alone.
#[allow(non_camel_case_types)]
#[derive(PartialEq, Eq, Structural, Clone, Copy, Debug)]
pub enum Ball {
    RED,
    GREEN,
    BLUE,
    YELLOW,
    MAGENTA,
    CYAN,
    PINK,
    ORANGE,
    SHITTYCOLORIDK,
}

/// The number of colours in the palette.
pub const PALETTE_SIZE: u8 = 9;

/// The palette in the order in which a new puzzle draws its colours.
pub open spec fn palette() -> Seq<Ball> {
    seq![
        Ball::RED,
        Ball::GREEN,
        Ball::BLUE,
        Ball::YELLOW,
        Ball::MAGENTA,
        Ball::CYAN,
        Ball::PINK,
        Ball::ORANGE,
        Ball::SHITTYCOLORIDK,
    ]
}

impl Ball {
    /// The character that stands for this colour when a glass is drawn.
    pub open spec fn glyph(self) -> char {
        match self {
            Ball::RED => 'R',
            Ball::GREEN => 'G',
            Ball::BLUE => 'B',
            Ball::YELLOW => 'Y',
            Ball::MAGENTA => 'M',
            Ball::CYAN => 'C',
            Ball::PINK => 'P',
            Ball::ORANGE => 'O',
            Ball::SHITTYCOLORIDK => 'S',
        }
    }

    /// All colours, in palette order.
    pub fn get_colors() -> (colors: [Ball; 9])
        ensures
            colors@ == palette(),
    {
        [
            Ball::RED,
            Ball::GREEN,
            Ball::BLUE,
            Ball::YELLOW,
            Ball::MAGENTA,
            Ball::CYAN,
            Ball::PINK,
            Ball::ORANGE,
            Ball::SHITTYCOLORIDK,
        ]
    }

    /// The glyph of this colour as a one-character string.
    pub fn symbol(&self) -> (symbol: &'static str)
        ensures
            symbol@ == seq![self.glyph()],
    {
        proof {
            reveal_strlit("R");
            reveal_strlit("G");
            reveal_strlit("B");
            reveal_strlit("Y");
            reveal_strlit("M");
            reveal_strlit("C");
            reveal_strlit("P");
            reveal_strlit("O");
            reveal_strlit("S");
        }
        match self {
            Ball::RED => "R",
            Ball::GREEN => "G",
            Ball::BLUE => "B",
            Ball::YELLOW => "Y",
            Ball::MAGENTA => "M",
            Ball::CYAN => "C",
            Ball::PINK => "P",
            Ball::ORANGE => "O",
            Ball::SHITTYCOLORIDK => "S",
        }
    }
}

/// The palette holds every colour, and each only once.
pub proof fn lemma_palette_distinct()
    ensures
        palette().len() == PALETTE_SIZE,
        forall|i: int, j: int| 0 <= i < j < palette().len() ==> palette()[i] != palette()[j],
        forall|ball: Ball| palette().contains(ball),
{
    assert forall|ball: Ball| palette().contains(ball) by {
        let index: int = match ball {
            Ball::RED => 0,
            Ball::GREEN => 1,
            Ball::BLUE => 2,
            Ball::YELLOW => 3,
            Ball::MAGENTA => 4,
            Ball::CYAN => 5,
            Ball::PINK => 6,
            Ball::ORANGE => 7,
            Ball::SHITTYCOLORIDK => 8,
        };
        assert(palette()[index] == ball);
    }
}

} // verus!
