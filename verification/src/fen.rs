use vstd::prelude::*;
use vstd::slice::slice_subrange;

use crate::board::{lemma_add_piece, lemma_partition, lemma_same_pieces, Board};
use crate::bitboard::lemma_view_determines;
use crate::castling::{grants, is_castling_text, lemma_rights_determine, Castling, CastlingKind};
use crate::color::Color;
use crate::error::InvalidInput;
use crate::piece::{is_white_letter, piece_of_letter, piece_of_ordinal, Piece};
use crate::square::{square_of_text, Square};
use crate::text::{chars_of, field, field_end, field_start, has_field, lemma_field_bounds, next_field};

verus! {

/// The number of empty squares that a digit of a placement field skips.
pub open spec fn digit_value(c: char) -> Option<int> {
    if '0' <= c <= '9' {
        Some(c as int - '0' as int)
    } else {
        None
    }
}

/// The color of the piece that a piece letter stands for.
pub open spec fn color_of_letter(c: char) -> Color {
    if is_white_letter(c) {
        Color::White
    } else {
        Color::Black
    }
}

/// The rank and file at which the reader of a placement field stands after its
/// first `n` characters. It starts on the eighth rank at the a-file; a slash
/// moves it to the a-file of the rank below, a digit moves it on by that many
/// files, and any other character by one.
pub open spec fn cursor(f: Seq<char>, n: int) -> (int, int)
    decreases n,
{
    if n <= 0 {
        (7, 0)
    } else {
        let (rank, file) = cursor(f, n - 1);
        let c = f[n - 1];
        if c == '/' {
            (rank - 1, 0)
        } else if digit_value(c) is Some {
            (rank, file + digit_value(c)->0)
        } else {
            (rank, file + 1)
        }
    }
}

/// The square on which character `i` of a placement field stands.
pub open spec fn stands_at(f: Seq<char>, i: int) -> int {
    8 * cursor(f, i).0 + cursor(f, i).1
}

/// Whether character `i` of a placement field can be read: a slash above the
/// first rank, a digit, or a piece letter on one of the eight files.
pub open spec fn reads_at(f: Seq<char>, i: int) -> bool {
    let c = f[i];
    if c == '/' {
        cursor(f, i).0 > 0
    } else if digit_value(c) is Some {
        true
    } else {
        piece_of_letter(c) is Some && cursor(f, i).1 < 8
    }
}

/// Whether every character of a placement field can be read.
pub open spec fn is_placement(f: Seq<char>) -> bool {
    forall|i: int| 0 <= i < f.len() ==> #[trigger] reads_at(f, i)
}

/// Whether character `i` of a placement field puts a piece of that kind and
/// color on square `s`.
pub open spec fn places_at(f: Seq<char>, i: int, piece: Piece, color: Color, s: int) -> bool {
    &&& piece_of_letter(f[i]) == Some(piece)
    &&& color_of_letter(f[i]) == color
    &&& stands_at(f, i) == s
}

/// Whether one of the first `n` characters of a placement field puts a piece
/// of that kind and color on square `s`.
pub open spec fn places_before(f: Seq<char>, n: int, piece: Piece, color: Color, s: int) -> bool {
    exists|i: int| 0 <= i < n && #[trigger] places_at(f, i, piece, color, s)
}

/// Whether a placement field puts a piece of that kind and color on square `s`.
pub open spec fn places(f: Seq<char>, piece: Piece, color: Color, s: int) -> bool {
    places_before(f, f.len() as int, piece, color, s)
}

/// The squares on which a placement field puts any piece.
pub open spec fn placed_squares(f: Seq<char>) -> Set<int> {
    Set::new(|s: int| exists|p: Piece, c: Color| #[trigger] places(f, p, c, s))
}

/// The one-character text `c`.
pub open spec fn single(c: char) -> Seq<char> {
    seq![c]
}

/// Why a position in Forsyth-Edwards notation cannot be read, or `None` where
/// it can. Only the first four fields are looked at.
pub open spec fn fen_error(fen: Seq<char>) -> Option<InvalidInput> {
    if !has_field(fen, 3) {
        Some(InvalidInput::MissingField)
    } else if !is_placement(field(fen, 0)) {
        Some(InvalidInput::Placement)
    } else if field(fen, 1) != single('w') && field(fen, 1) != single('b') {
        Some(InvalidInput::Turn)
    } else if !is_castling_text(field(fen, 2)) {
        Some(InvalidInput::Castling)
    } else if field(fen, 3) != single('-') && square_of_text(field(fen, 3)) is None {
        Some(InvalidInput::EnPassant)
    } else {
        None
    }
}

/// Whether `b` is the board that a readable position in Forsyth-Edwards
/// notation describes.
pub open spec fn describes(fen: Seq<char>, b: Board) -> bool {
    &&& b.wf()
    &&& forall|p: Piece, c: Color, s: int| #[trigger]
        b.squares_of(p, c).contains(s) <==> places(field(fen, 0), p, c, s)
    &&& b.turn == if field(fen, 1) == single('w') {
        Color::White
    } else {
        Color::Black
    }
    &&& b.castling.0 < 16
    &&& forall|kind: CastlingKind| b.castling.allows(kind) <==> grants(field(fen, 2), kind)
    &&& b.en_passant == if field(fen, 3) == single('-') {
        None
    } else {
        square_of_text(field(fen, 3))
    }
    &&& b.phase == b.phase_of_material()
}

/// Puts the pieces of a placement field on an empty board. Returns whether
/// the field could be read; where it could not, the board holds what was
/// placed up to the first character at fault.
fn place_pieces(f: &[char], board: &mut Board) -> (ok: bool)
    requires
        old(board).wf(),
        old(board).occupied() =~= Set::<int>::empty(),
    ensures
        ok <==> is_placement(f@),
        ok ==> final(board).wf(),
        ok ==> forall|p: Piece, c: Color, s: int| #[trigger]
            final(board).squares_of(p, c).contains(s) <==> places(f@, p, c, s),
        final(board).turn == old(board).turn,
        final(board).en_passant == old(board).en_passant,
        final(board).castling == old(board).castling,
        final(board).phase == old(board).phase,
{
    let mut rank: u8 = 7;
    let mut file: u8 = 0;
    let mut i: usize = 0;
    proof {
        assert forall|p: Piece, c: Color, s: int| !#[trigger] board.squares_of(p, c).contains(s) by {
            if board.squares_of(p, c).contains(s) {
                assert(board.color_set(c).contains(s));
                assert(board.occupied().contains(s));
            }
        }
    }
    while i < f.len()
        invariant
            i <= f@.len(),
            rank == cursor(f@, i as int).0,
            rank <= 7,
            0 <= cursor(f@, i as int).1,
            file == if cursor(f@, i as int).1 < 8 {
                cursor(f@, i as int).1
            } else {
                8
            },
            forall|j: int| 0 <= j < i ==> #[trigger] reads_at(f@, j),
            board.wf(),
            forall|p: Piece, c: Color, s: int| #[trigger]
                board.squares_of(p, c).contains(s) <==> places_before(f@, i as int, p, c, s),
            forall|s: int| #[trigger]
                board.occupied().contains(s) ==> 0 <= s < 64 && (s / 8 > rank || (s / 8 == rank && s
                    % 8 < file)),
            board.turn == old(board).turn,
            board.en_passant == old(board).en_passant,
            board.castling == old(board).castling,
            board.phase == old(board).phase,
        decreases f@.len() - i,
    {
        let c = f[i];
        let ghost before = *board;
        let ghost at = i as int;
        if c == '/' {
            if rank == 0 {
                proof {
                    assert(!reads_at(f@, at));
                }
                return false;
            }
            rank -= 1;
            file = 0;
        } else if '0' <= c && c <= '9' {
            let skip: u8 = (c as u32 - '0' as u32) as u8;
            file = if file + skip < 8 {
                file + skip
            } else {
                8
            };
        } else {
            match Piece::from_char(c) {
                None => {
                    proof {
                        assert(!reads_at(f@, at));
                    }
                    return false;
                },
                Some(piece) => {
                    if file >= 8 {
                        proof {
                            assert(!reads_at(f@, at));
                        }
                        return false;
                    }
                    let color = if c == 'P' || c == 'N' || c == 'B' || c == 'R' || c == 'Q' || c
                        == 'K' {
                        Color::White
                    } else {
                        Color::Black
                    };
                    let square = Square::from_rank_file(rank, file);
                    proof {
                        if before.occupied().contains(square.0 as int) {
                            assert(false);
                        }
                    }
                    board.add_piece(piece, color, square);
                    proof {
                        lemma_add_piece(before, *board, piece, color, square.0 as int);
                        assert(places_at(f@, at, piece, color, square.0 as int));
                    }
                    file += 1;
                },
            }
        }
        proof {
            assert(reads_at(f@, at));
            assert forall|p: Piece, k: Color, s: int| #[trigger]
                board.squares_of(p, k).contains(s) <==> places_before(f@, at + 1, p, k, s) by {
                if places_before(f@, at, p, k, s) {
                    let j = choose|j: int| 0 <= j < at && #[trigger] places_at(f@, j, p, k, s);
                    assert(places_at(f@, j, p, k, s));
                }
                if places_before(f@, at + 1, p, k, s) {
                    let j = choose|j: int| 0 <= j < at + 1 && #[trigger] places_at(f@, j, p, k, s);
                    if j < at {
                        assert(places_before(f@, at, p, k, s));
                    }
                }
                if before.squares_of(p, k).contains(s) {
                    assert(places_before(f@, at, p, k, s));
                }
            }
        }
        i += 1;
    }
    true
}

/// Reads the first four fields of a position in Forsyth-Edwards notation from
/// its characters: piece placement, side to move, castling rights and the
/// en-passant square. What follows them is not read.
pub fn parse_fen_chars(chars: &[char]) -> (r: Result<Board, InvalidInput>)
    ensures
        match r {
            Ok(b) => fen_error(chars@) is None && describes(chars@, b),
            Err(e) => fen_error(chars@) == Some(e),
        },
{
    let (s0, e0) = next_field(chars, 0);
    let (s1, e1) = next_field(chars, e0);
    let (s2, e2) = next_field(chars, e1);
    let (s3, e3) = next_field(chars, e2);
    proof {
        reveal_with_fuel(field_start, 4);
        assert(s0 == field_start(chars@, 0) && e0 == field_end(chars@, 0));
        assert(s1 == field_start(chars@, 1) && e1 == field_end(chars@, 1));
        assert(s2 == field_start(chars@, 2) && e2 == field_end(chars@, 2));
        assert(s3 == field_start(chars@, 3) && e3 == field_end(chars@, 3));
        lemma_field_bounds(chars@, 3);
        lemma_field_bounds(chars@, 2);
        lemma_field_bounds(chars@, 1);
    }
    if s3 >= chars.len() {
        return Err(InvalidInput::MissingField);
    }
    let placement = slice_subrange(chars, s0, e0);
    let turn = slice_subrange(chars, s1, e1);
    let rights = slice_subrange(chars, s2, e2);
    let target = slice_subrange(chars, s3, e3);
    assert(placement@ == field(chars@, 0));
    assert(turn@ == field(chars@, 1));
    assert(rights@ == field(chars@, 2));
    assert(target@ == field(chars@, 3));

    let mut board = Board::empty();
    if !place_pieces(placement, &mut board) {
        return Err(InvalidInput::Placement);
    }
    let ghost placed = board;
    if turn.len() == 1 && turn[0] == 'w' {
        assert(turn@ =~= single('w'));
        board.turn = Color::White;
    } else if turn.len() == 1 && turn[0] == 'b' {
        assert(turn@ =~= single('b'));
        assert(single('b') != single('w')) by {
            assert(single('b')[0] != single('w')[0]);
        }
        board.turn = Color::Black;
    } else {
        proof {
            if turn@ == single('w') || turn@ == single('b') {
                assert(turn@.len() == 1);
                assert(turn@[0] == 'w' || turn@[0] == 'b');
            }
        }
        return Err(InvalidInput::Turn);
    }
    match Castling::from_chars(rights) {
        None => {
            return Err(InvalidInput::Castling);
        },
        Some(castling) => {
            board.castling = castling;
        },
    }
    if target.len() == 1 && target[0] == '-' {
        assert(target@ =~= single('-'));
        board.en_passant = None;
    } else {
        proof {
            if target@ == single('-') {
                assert(target@.len() == 1);
                assert(target@[0] == '-');
            }
        }
        match Square::from_chars(target) {
            None => {
                return Err(InvalidInput::EnPassant);
            },
            Some(square) => {
                board.en_passant = Some(square);
            },
        }
    }
    board.phase = board.material_phase();
    proof {
        lemma_same_pieces(placed, board);
        assert forall|p: Piece, c: Color, s: int| #[trigger]
            board.squares_of(p, c).contains(s) <==> places(placement@, p, c, s) by {
            assert(placed.squares_of(p, c) == board.squares_of(p, c));
            assert(placed.squares_of(p, c).contains(s) <==> places(placement@, p, c, s));
        }
    }
    Ok(board)
}

/// Reads a position in Forsyth-Edwards notation.
pub fn parse_fen(fen: &str) -> (r: Result<Board, InvalidInput>)
    ensures
        match r {
            Ok(b) => fen_error(fen@) is None && describes(fen@, b),
            Err(e) => fen_error(fen@) == Some(e),
        },
{
    let chars = chars_of(fen);
    parse_fen_chars(chars.as_slice())
}

impl Board {
    /// Returns the board that a readable position in Forsyth-Edwards notation
    /// describes.
    pub fn new(fen: &str) -> (b: Board)
        requires
            fen_error(fen@) is None,
        ensures
            describes(fen@, b),
    {
        match parse_fen(fen) {
            Ok(b) => b,
            Err(_) => Board::empty(),
        }
    }
}

/// On the board that a readable position describes, the twelve sets of
/// squares by piece kind and color are pairwise disjoint, and together they
/// are the squares on which the placement field puts a piece.
pub proof fn lemma_described_partition(fen: Seq<char>, b: Board)
    requires
        describes(fen, b),
    ensures
        forall|p: Piece, c: Color, q: Piece, d: Color|
            (p != q || c != d) ==> (#[trigger] b.squares_of(p, c)).disjoint(
                #[trigger] b.squares_of(q, d),
            ),
        b.occupied() =~= placed_squares(field(fen, 0)),
        forall|s: int|
            placed_squares(field(fen, 0)).contains(s) <==> exists|p: Piece, c: Color| #[trigger]
                b.squares_of(p, c).contains(s),
{
    lemma_partition(b);
    let f = field(fen, 0);
    assert forall|s: int|
        placed_squares(f).contains(s) <==> exists|p: Piece, c: Color| #[trigger]
            b.squares_of(p, c).contains(s) by {
        if placed_squares(f).contains(s) {
            let (p, c) = choose|p: Piece, c: Color| #[trigger] places(f, p, c, s);
            assert(b.squares_of(p, c).contains(s));
        }
        if exists|p: Piece, c: Color| #[trigger] b.squares_of(p, c).contains(s) {
            let (p, c) = choose|p: Piece, c: Color| #[trigger] b.squares_of(p, c).contains(s);
            assert(places(f, p, c, s));
        }
    }
}

/// A readable position describes one board and no other.
pub proof fn lemma_describes_one_board(fen: Seq<char>, a: Board, b: Board)
    requires
        describes(fen, a),
        describes(fen, b),
    ensures
        a == b,
{
    assert forall|p: Piece| #[trigger] a.piece_set(p) =~= b.piece_set(p) by {
        assert forall|s: int| a.piece_set(p).contains(s) <==> b.piece_set(p).contains(s) by {
            lemma_kind_has_color(a, p, s);
            lemma_kind_has_color(b, p, s);
            assert(a.squares_of(p, Color::White).contains(s) <==> b.squares_of(
                p,
                Color::White,
            ).contains(s));
            assert(a.squares_of(p, Color::Black).contains(s) <==> b.squares_of(
                p,
                Color::Black,
            ).contains(s));
        }
    }
    assert forall|c: Color| #[trigger] a.color_set(c) =~= b.color_set(c) by {
        assert forall|s: int| a.color_set(c).contains(s) <==> b.color_set(c).contains(s) by {
            lemma_color_has_kind(a, b, c, s);
            lemma_color_has_kind(b, a, c, s);
        }
    }
    assert(a.pieces =~= b.pieces) by {
        assert forall|i: int| 0 <= i < 6 implies a.pieces[i] == b.pieces[i] by {
            let p = piece_of_ordinal(i);
            assert(a.piece_set(p) =~= b.piece_set(p));
            lemma_view_determines(a.pieces[i], b.pieces[i]);
        }
    }
    assert(a.colors =~= b.colors) by {
        assert forall|i: int| 0 <= i < 2 implies a.colors[i] == b.colors[i] by {
            let c = if i == 0 {
                Color::White
            } else {
                Color::Black
            };
            assert(a.color_set(c) =~= b.color_set(c));
            lemma_view_determines(a.colors[i], b.colors[i]);
        }
    }
    lemma_same_pieces(a, b);
    lemma_rights_determine(a.castling, b.castling);
}

/// On a well-formed board a square of a piece kind has one of the two colors.
proof fn lemma_kind_has_color(b: Board, p: Piece, s: int)
    requires
        b.wf(),
    ensures
        b.piece_set(p).contains(s) <==> b.squares_of(p, Color::White).contains(s) || b.squares_of(
            p,
            Color::Black,
        ).contains(s),
{
    if b.piece_set(p).contains(s) {
        assert(b.has_piece_on(s));
        assert(b.occupied().contains(s));
    }
}

/// Where two well-formed boards agree on the squares of every kind and color,
/// a square that has a color on one has it on the other.
proof fn lemma_color_has_kind(a: Board, b: Board, c: Color, s: int)
    requires
        a.wf(),
        forall|p: Piece, k: Color, t: int| #[trigger]
            a.squares_of(p, k).contains(t) <==> b.squares_of(p, k).contains(t),
    ensures
        a.color_set(c).contains(s) ==> b.color_set(c).contains(s),
{
    if a.color_set(c).contains(s) {
        assert(a.occupied().contains(s));
        assert(a.has_piece_on(s));
        let p = choose|p: Piece| #[trigger] a.piece_set(p).contains(s);
        assert(a.squares_of(p, c).contains(s));
        assert(b.squares_of(p, c).contains(s));
    }
}

} // verus!
