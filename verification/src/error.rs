use vstd::prelude::*;

verus! {

/// Why a line of input was refused.
#[derive(Debug, Clone, Copy, PartialEq, Eq, Structural)]
pub enum InvalidInput {
    /// The position has fewer than four fields.
    MissingField,
    /// The piece placement holds a character that is no piece letter, digit
    /// or slash, puts a piece past the last file, or goes below the first rank.
    Placement,
    /// The side to move is neither `w` nor `b`.
    Turn,
    /// The castling rights hold a character other than `K`, `Q`, `k`, `q` and `-`.
    Castling,
    /// The en-passant field is neither `-` nor a square.
    EnPassant,
    /// The line lacks the separator that parts the position from the result.
    Separator,
    /// The result of the game is none of the three that are known.
    Label,
    /// The name of the file ends in neither of the two known extensions.
    Extension,
}

} // verus!
