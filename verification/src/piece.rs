use vstd::prelude::*;

verus! {

/// The six kinds of chess piece, in ascending ordinal order.
#[derive(Debug, Clone, Copy, PartialEq, Eq, Structural)]
pub enum Piece {
    Pawn,
    Knight,
    Bishop,
    Rook,
    Queen,
    King,
}

/// The piece kind with the given ordinal; ordinals past the king's are read as the king.
pub open spec fn piece_of_ordinal(i: int) -> Piece {
    if i == 0 {
        Piece::Pawn
    } else if i == 1 {
        Piece::Knight
    } else if i == 2 {
        Piece::Bishop
    } else if i == 3 {
        Piece::Rook
    } else if i == 4 {
        Piece::Queen
    } else {
        Piece::King
    }
}

/// The piece kind a FEN letter stands for, in either case.
pub open spec fn piece_of_letter(c: char) -> Option<Piece> {
    if c == 'p' || c == 'P' {
        Some(Piece::Pawn)
    } else if c == 'n' || c == 'N' {
        Some(Piece::Knight)
    } else if c == 'b' || c == 'B' {
        Some(Piece::Bishop)
    } else if c == 'r' || c == 'R' {
        Some(Piece::Rook)
    } else if c == 'q' || c == 'Q' {
        Some(Piece::Queen)
    } else if c == 'k' || c == 'K' {
        Some(Piece::King)
    } else {
        None
    }
}

/// Whether a FEN piece letter is written in upper case, which marks a white piece.
pub open spec fn is_white_letter(c: char) -> bool {
    c == 'P' || c == 'N' || c == 'B' || c == 'R' || c == 'Q' || c == 'K'
}

impl Piece {
    /// The number of piece kinds.
    pub const NUM: usize = 6;

    /// Ordinal of the piece kind: 0 for the pawn up to 5 for the king.
    pub open spec fn ordinal(self) -> int {
        match self {
            Piece::Pawn => 0,
            Piece::Knight => 1,
            Piece::Bishop => 2,
            Piece::Rook => 3,
            Piece::Queen => 4,
            Piece::King => 5,
        }
    }

    /// Position of this piece kind in an array indexed by piece.
    pub fn index(self) -> (i: usize)
        ensures
            i == self.ordinal(),
            i < 6,
    {
        match self {
            Piece::Pawn => 0,
            Piece::Knight => 1,
            Piece::Bishop => 2,
            Piece::Rook => 3,
            Piece::Queen => 4,
            Piece::King => 5,
        }
    }

    /// Returns the piece kind with ordinal `index`.
    pub fn from_index(index: usize) -> (p: Piece)
        requires
            index < 6,
        ensures
            p == piece_of_ordinal(index as int),
            p.ordinal() == index,
    {
        if index == 0 {
            Piece::Pawn
        } else if index == 1 {
            Piece::Knight
        } else if index == 2 {
            Piece::Bishop
        } else if index == 3 {
            Piece::Rook
        } else if index == 4 {
            Piece::Queen
        } else {
            Piece::King
        }
    }

    /// Reads a FEN piece letter of either case; any other character gives `None`.
    pub fn from_char(c: char) -> (p: Option<Piece>)
        ensures
            p == piece_of_letter(c),
    {
        if c == 'p' || c == 'P' {
            Some(Piece::Pawn)
        } else if c == 'n' || c == 'N' {
            Some(Piece::Knight)
        } else if c == 'b' || c == 'B' {
            Some(Piece::Bishop)
        } else if c == 'r' || c == 'R' {
            Some(Piece::Rook)
        } else if c == 'q' || c == 'Q' {
            Some(Piece::Queen)
        } else if c == 'k' || c == 'K' {
            Some(Piece::King)
        } else {
            None
        }
    }
}

/// Every ordinal below six names the piece kind that has it.
pub proof fn lemma_ordinal_roundtrip(p: Piece)
    ensures
        0 <= p.ordinal() < 6,
        piece_of_ordinal(p.ordinal()) == p,
{
}

} // verus!
