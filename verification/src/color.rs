use vstd::prelude::*;

verus! {

/// The side a piece belongs to, or the side to move.
#[derive(Debug, Clone, Copy, PartialEq, Eq, Structural)]
pub enum Color {
    White,
    Black,
}

impl Color {
    /// The number of colors.
    pub const NUM: usize = 2;

    /// Ordinal of the color: 0 for White, 1 for Black.
    pub open spec fn ordinal(self) -> int {
        match self {
            Color::White => 0,
            Color::Black => 1,
        }
    }

    /// The other side.
    pub open spec fn flipped(self) -> Color {
        match self {
            Color::White => Color::Black,
            Color::Black => Color::White,
        }
    }

    /// Position of this color in an array indexed by color.
    pub fn index(self) -> (i: usize)
        ensures
            i == self.ordinal(),
            i < 2,
    {
        match self {
            Color::White => 0,
            Color::Black => 1,
        }
    }

    /// Returns the other side.
    pub fn opposite(self) -> (c: Color)
        ensures
            c == self.flipped(),
    {
        match self {
            Color::White => Color::Black,
            Color::Black => Color::White,
        }
    }
}

impl Default for Color {
    fn default() -> (c: Color)
        ensures
            c == Color::White,
    {
        Color::White
    }
}

} // verus!
