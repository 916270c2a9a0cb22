use vstd::prelude::*;
use vstd::string::*;

use crate::text::chars_of;

verus! {

/// A square of the board in little-endian rank-file order: `8 * rank + file`,
/// so a1 is 0, h1 is 7 and h8 is 63.
#[derive(Debug, Clone, Copy, PartialEq, Eq, Structural)]
pub struct Square(pub u8);

/// File of an algebraic file letter, `a` to `h` in either case.
pub open spec fn file_of_letter(c: char) -> Option<int> {
    if 'a' <= c <= 'h' {
        Some(c as int - 'a' as int)
    } else if 'A' <= c <= 'H' {
        Some(c as int - 'A' as int)
    } else {
        None
    }
}

/// Rank of an algebraic rank digit, `1` to `8`.
pub open spec fn rank_of_digit(c: char) -> Option<int> {
    if '1' <= c <= '8' {
        Some(c as int - '1' as int)
    } else {
        None
    }
}

/// The letter of a file, `a` for the first.
pub open spec fn file_letter(file: int) -> char {
    if file == 0 {
        'a'
    } else if file == 1 {
        'b'
    } else if file == 2 {
        'c'
    } else if file == 3 {
        'd'
    } else if file == 4 {
        'e'
    } else if file == 5 {
        'f'
    } else if file == 6 {
        'g'
    } else {
        'h'
    }
}

/// The digit of a rank, `1` for the first.
pub open spec fn rank_digit(rank: int) -> char {
    if rank == 0 {
        '1'
    } else if rank == 1 {
        '2'
    } else if rank == 2 {
        '3'
    } else if rank == 3 {
        '4'
    } else if rank == 4 {
        '5'
    } else if rank == 5 {
        '6'
    } else if rank == 6 {
        '7'
    } else {
        '8'
    }
}

/// The square that a text names in algebraic notation: a file letter followed
/// by a rank digit. Whatever follows the two characters is not read.
pub open spec fn square_of_text(text: Seq<char>) -> Option<Square> {
    if text.len() >= 2 && file_of_letter(text[0]) is Some && rank_of_digit(text[1]) is Some {
        Some(Square((8 * rank_of_digit(text[1])->0 + file_of_letter(text[0])->0) as u8))
    } else {
        None
    }
}

impl Square {
    /// The number of squares.
    pub const NUM: usize = 64;

    /// Whether the square lies on the board.
    pub open spec fn on_board(self) -> bool {
        self.0 < 64
    }

    /// Rank of the square, 0 for the first rank.
    pub open spec fn rank(self) -> int {
        self.0 as int / 8
    }

    /// File of the square, 0 for the a-file.
    pub open spec fn file(self) -> int {
        self.0 as int % 8
    }

    /// The square on the same file whose rank is counted from the other side.
    pub open spec fn mirrored(self) -> Square {
        Square((8 * (7 - self.rank()) + self.file()) as u8)
    }

    /// Returns the square at the given rank and file.
    pub fn from_rank_file(rank: u8, file: u8) -> (s: Square)
        requires
            rank < 8,
            file < 8,
        ensures
            s.0 == 8 * rank + file,
            s.on_board(),
            s.rank() == rank,
            s.file() == file,
    {
        Square(rank * 8 + file)
    }

    /// Returns the square with the given index.
    pub fn from_index(index: usize) -> (s: Square)
        requires
            index < 64,
        ensures
            s.0 == index,
    {
        Square(index as u8)
    }

    /// Reads a square from the characters of its algebraic notation.
    pub fn from_chars(text: &[char]) -> (s: Option<Square>)
        ensures
            s == square_of_text(text@),
            s matches Some(q) ==> q.on_board(),
    {
        if text.len() < 2 {
            return None;
        }
        let f = text[0];
        let r = text[1];
        let file: u8 = if 'a' <= f && f <= 'h' {
            (f as u32 - 'a' as u32) as u8
        } else if 'A' <= f && f <= 'H' {
            (f as u32 - 'A' as u32) as u8
        } else {
            return None;
        };
        if '1' <= r && r <= '8' {
            let rank: u8 = (r as u32 - '1' as u32) as u8;
            Some(Square::from_rank_file(rank, file))
        } else {
            None
        }
    }

    /// Reads a square in algebraic notation, such as `e3`.
    pub fn parse(text: &str) -> (s: Option<Square>)
        ensures
            s == square_of_text(text@),
            s matches Some(q) ==> q.on_board(),
    {
        let chars = chars_of(text);
        Square::from_chars(chars.as_slice())
    }

    /// Returns the square in algebraic notation, such as `e3`.
    pub fn to_text(self) -> (text: String)
        requires
            self.on_board(),
        ensures
            square_of_text(text@) == Some(self),
            text@ == seq![file_letter(self.file()), rank_digit(self.rank())],
    {
        let file = self.0 % 8;
        let rank = self.0 / 8;
        proof {
            reveal_strlit("a");
            reveal_strlit("b");
            reveal_strlit("c");
            reveal_strlit("d");
            reveal_strlit("e");
            reveal_strlit("f");
            reveal_strlit("g");
            reveal_strlit("h");
            reveal_strlit("1");
            reveal_strlit("2");
            reveal_strlit("3");
            reveal_strlit("4");
            reveal_strlit("5");
            reveal_strlit("6");
            reveal_strlit("7");
            reveal_strlit("8");
        }
        let f = if file == 0 {
            "a"
        } else if file == 1 {
            "b"
        } else if file == 2 {
            "c"
        } else if file == 3 {
            "d"
        } else if file == 4 {
            "e"
        } else if file == 5 {
            "f"
        } else if file == 6 {
            "g"
        } else {
            "h"
        };
        let r = if rank == 0 {
            "1"
        } else if rank == 1 {
            "2"
        } else if rank == 2 {
            "3"
        } else if rank == 3 {
            "4"
        } else if rank == 4 {
            "5"
        } else if rank == 5 {
            "6"
        } else if rank == 6 {
            "7"
        } else {
            "8"
        };
        let mut text = String::new();
        text.append(f);
        text.append(r);
        proof {
            assert(text@ =~= seq![file_letter(self.file()), rank_digit(self.rank())]);
        }
        text
    }

    /// Returns the vertically mirrored square: the same file, seen from the other side.
    pub fn flip(self) -> (s: Square)
        requires
            self.on_board(),
        ensures
            s == self.mirrored(),
            s.on_board(),
            s.mirrored() == self,
    {
        let s = Square(self.0 ^ 56);
        proof {
            let x = self.0;
            assert(x < 64 ==> (x ^ 56) == 8 * (7 - x / 8) + x % 8) by (bit_vector);
        }
        s
    }
}

} // verus!
