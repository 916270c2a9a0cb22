use vstd::prelude::*;

use crate::bitboard::{lemma_bitboard_size, Bitboard};
use crate::castling::Castling;
use crate::color::Color;
use crate::piece::{piece_of_ordinal, Piece};
use crate::square::Square;

verus! {

/// The phase of a position with the full starting material, in twenty-fourths.
pub const FULL_PHASE: u32 = 24;

/// A chess position: where the pieces stand, whose move it is, and what
/// castling and en-passant rights remain.
///
/// A square belongs to a piece kind and to a color separately, one set of
/// squares for each of the six kinds and one for each of the two colors.
#[derive(Debug, Clone, Copy)]
pub struct Board {
    /// The side to move.
    pub turn: Color,
    /// The squares of each piece kind, indexed by the kind's ordinal.
    pub pieces: [Bitboard; 6],
    /// The squares of each color, indexed by the color's ordinal.
    pub colors: [Bitboard; 2],
    /// The square a pawn may capture onto en passant, if any.
    pub en_passant: Option<Square>,
    /// The castling moves still allowed.
    pub castling: Castling,
    /// The phase of the game in twenty-fourths: 24 with the full starting
    /// material, falling to 0 as the pieces other than pawns leave the board.
    pub phase: u32,
}

impl Board {
    /// The squares on which a piece of kind `piece` stands.
    pub open spec fn piece_set(self, piece: Piece) -> Set<int> {
        self.pieces[piece.ordinal()]@
    }

    /// The squares on which a piece of color `color` stands.
    pub open spec fn color_set(self, color: Color) -> Set<int> {
        self.colors[color.ordinal()]@
    }

    /// The squares on which a piece of that kind and color stands.
    pub open spec fn squares_of(self, piece: Piece, color: Color) -> Set<int> {
        self.piece_set(piece).intersect(self.color_set(color))
    }

    /// The squares on which any piece stands.
    pub open spec fn occupied(self) -> Set<int> {
        self.color_set(Color::White).union(self.color_set(Color::Black))
    }

    /// Whether some piece kind claims the square.
    pub open spec fn has_piece_on(self, s: int) -> bool {
        exists|p: Piece| #[trigger] self.piece_set(p).contains(s)
    }

    /// The sets of the board are well formed: no square belongs to two piece
    /// kinds or to both colors, and the squares that have a kind are those
    /// that have a color.
    pub open spec fn wf(self) -> bool {
        &&& forall|p: Piece, q: Piece, s: int|
            p != q && #[trigger] self.piece_set(p).contains(s) ==> !#[trigger] self.piece_set(
                q,
            ).contains(s)
        &&& self.color_set(Color::White).disjoint(self.color_set(Color::Black))
        &&& forall|s: int| self.has_piece_on(s) <==> #[trigger] self.occupied().contains(s)
    }

    /// The number of pieces of kind `piece` on the board.
    pub open spec fn material(self, piece: Piece) -> nat {
        self.piece_set(piece).len()
    }

    /// The game phase that the material on the board gives, in twenty-fourths:
    /// one for each knight and bishop, two for each rook, four for each queen.
    pub open spec fn phase_of_material(self) -> nat {
        self.material(Piece::Knight) + self.material(Piece::Bishop) + 2 * self.material(
            Piece::Rook,
        ) + 4 * self.material(Piece::Queen)
    }

    /// The board with no piece, White to move and no rights.
    pub fn empty() -> (b: Board)
        ensures
            b.wf(),
            forall|p: Piece| b.piece_set(p) =~= Set::<int>::empty(),
            forall|c: Color| b.color_set(c) =~= Set::<int>::empty(),
            b.turn == Color::White,
            b.en_passant is None,
            b.castling.0 == 0,
            b.phase == 0,
    {
        let none = Bitboard::empty();
        let b = Board {
            turn: Color::White,
            pieces: [none, none, none, none, none, none],
            colors: [none, none],
            en_passant: None,
            castling: Castling::none(),
            phase: 0,
        };
        proof {
            assert forall|p: Piece| b.piece_set(p) =~= Set::<int>::empty() by {
                assert(b.pieces[p.ordinal()] == none);
            }
            assert forall|c: Color| b.color_set(c) =~= Set::<int>::empty() by {
                assert(b.colors[c.ordinal()] == none);
            }
            assert forall|s: int| !b.has_piece_on(s) by {
                if b.has_piece_on(s) {
                    let p = choose|p: Piece| #[trigger] b.piece_set(p).contains(s);
                    assert(b.piece_set(p) =~= Set::<int>::empty());
                }
            }
            assert(b.color_set(Color::White) =~= Set::<int>::empty());
            assert(b.color_set(Color::Black) =~= Set::<int>::empty());
        }
        b
    }

    /// Returns the squares on which a piece of that kind and color stands.
    pub fn of(&self, piece: Piece, color: Color) -> (b: Bitboard)
        ensures
            b@ =~= self.squares_of(piece, color),
    {
        self.pieces[piece.index()].intersect(self.colors[color.index()])
    }

    /// Returns the squares on which a piece of that kind stands.
    pub fn pieces(&self, piece: Piece) -> (b: Bitboard)
        ensures
            b == self.pieces[piece.ordinal()],
            b@ == self.piece_set(piece),
    {
        self.pieces[piece.index()]
    }

    /// Finds the piece on `square`: the kind of lowest ordinal that claims the
    /// square, or `None` where no kind does.
    pub fn get_piece(&self, square: Square) -> (r: Option<Piece>)
        requires
            square.on_board(),
        ensures
            r is Some <==> self.has_piece_on(square.0 as int),
            r matches Some(p) ==> self.piece_set(p).contains(square.0 as int) && forall|q: Piece|
                q.ordinal() < p.ordinal() ==> !#[trigger] self.piece_set(q).contains(square.0 as int),
    {
        let mut index: usize = 0;
        while index < 6
            invariant
                index <= 6,
                square.on_board(),
                forall|q: Piece|
                    q.ordinal() < index ==> !#[trigger] self.piece_set(q).contains(square.0 as int),
            decreases 6 - index,
        {
            if self.pieces[index].contains(square) {
                let p = Piece::from_index(index);
                proof {
                    assert(self.piece_set(p).contains(square.0 as int));
                }
                return Some(p);
            }
            proof {
                assert forall|q: Piece| q.ordinal() < index + 1 implies !#[trigger] self.piece_set(
                    q,
                ).contains(square.0 as int) by {
                    if q.ordinal() == index {
                        assert(self.pieces[q.ordinal()] == self.pieces[index as int]);
                    }
                }
            }
            index += 1;
        }
        proof {
            if self.has_piece_on(square.0 as int) {
                let p = choose|p: Piece| #[trigger] self.piece_set(p).contains(square.0 as int);
                assert(p.ordinal() < 6);
            }
        }
        None
    }

    /// Places a piece of the given kind and color on the square.
    ///
    /// On a well-formed board with that square free the result is well formed.
    pub fn add_piece(&mut self, piece: Piece, color: Color, square: Square)
        requires
            square.on_board(),
        ensures
            final(self).piece_set(piece) =~= old(self).piece_set(piece).insert(square.0 as int),
            final(self).color_set(color) =~= old(self).color_set(color).insert(square.0 as int),
            forall|p: Piece| p != piece ==> final(self).pieces[p.ordinal()] == old(self).pieces[p.ordinal()],
            forall|c: Color| c != color ==> final(self).colors[c.ordinal()] == old(self).colors[c.ordinal()],
            final(self).turn == old(self).turn,
            final(self).en_passant == old(self).en_passant,
            final(self).castling == old(self).castling,
            final(self).phase == old(self).phase,
            old(self).wf() && !old(self).occupied().contains(square.0 as int) ==> final(self).wf(),
    {
        let mut kind = self.pieces[piece.index()];
        kind.set(square);
        self.pieces[piece.index()] = kind;
        let mut side = self.colors[color.index()];
        side.set(square);
        self.colors[color.index()] = side;
        proof {
            lemma_add_piece(*old(self), *self, piece, color, square.0 as int);
        }
    }

    /// Takes a piece of the given kind and color off the square.
    ///
    /// On a well-formed board with such a piece on that square the result is
    /// well formed.
    pub fn remove_piece(&mut self, piece: Piece, color: Color, square: Square)
        requires
            square.on_board(),
        ensures
            final(self).piece_set(piece) =~= old(self).piece_set(piece).remove(square.0 as int),
            final(self).color_set(color) =~= old(self).color_set(color).remove(square.0 as int),
            forall|p: Piece| p != piece ==> final(self).pieces[p.ordinal()] == old(self).pieces[p.ordinal()],
            forall|c: Color| c != color ==> final(self).colors[c.ordinal()] == old(self).colors[c.ordinal()],
            final(self).turn == old(self).turn,
            final(self).en_passant == old(self).en_passant,
            final(self).castling == old(self).castling,
            final(self).phase == old(self).phase,
            old(self).wf() && old(self).squares_of(piece, color).contains(square.0 as int)
                ==> final(self).wf(),
    {
        let mut kind = self.pieces[piece.index()];
        kind.clear(square);
        self.pieces[piece.index()] = kind;
        let mut side = self.colors[color.index()];
        side.clear(square);
        self.colors[color.index()] = side;
        proof {
            lemma_remove_keeps_wf(*old(self), *self, piece, color, square.0 as int);
        }
    }

    /// Computes the game phase that the material on the board gives.
    pub fn material_phase(&self) -> (phase: u32)
        ensures
            phase == self.phase_of_material(),
            phase <= 512,
    {
        let knights = self.pieces(Piece::Knight).count();
        let bishops = self.pieces(Piece::Bishop).count();
        let rooks = self.pieces(Piece::Rook).count();
        let queens = self.pieces(Piece::Queen).count();
        knights + bishops + 2 * rooks + 4 * queens
    }
}

impl Default for Board {
    fn default() -> (b: Board)
        ensures
            b.wf(),
            forall|p: Piece| b.piece_set(p) =~= Set::<int>::empty(),
            forall|c: Color| b.color_set(c) =~= Set::<int>::empty(),
            b.turn == Color::White,
            b.en_passant is None,
            b.castling.0 == 0,
            b.phase == 0,
    {
        Board::empty()
    }
}

/// Boards with the same sets of squares have the same pieces on the same
/// squares, whatever else differs between them.
pub proof fn lemma_same_pieces(a: Board, b: Board)
    requires
        a.pieces == b.pieces,
        a.colors == b.colors,
    ensures
        forall|p: Piece| #[trigger] a.piece_set(p) == b.piece_set(p),
        forall|c: Color| #[trigger] a.color_set(c) == b.color_set(c),
        forall|p: Piece, c: Color| #[trigger] a.squares_of(p, c) == b.squares_of(p, c),
        a.occupied() == b.occupied(),
        forall|s: int| a.has_piece_on(s) == b.has_piece_on(s),
        a.wf() == b.wf(),
        a.phase_of_material() == b.phase_of_material(),
{
    assert forall|s: int| a.has_piece_on(s) == b.has_piece_on(s) by {
        if a.has_piece_on(s) {
            let p = choose|p: Piece| #[trigger] a.piece_set(p).contains(s);
            assert(b.piece_set(p).contains(s));
        }
        if b.has_piece_on(s) {
            let p = choose|p: Piece| #[trigger] b.piece_set(p).contains(s);
            assert(a.piece_set(p).contains(s));
        }
    }
    if a.wf() {
        lemma_wf_carries(a, b);
    }
    if b.wf() {
        lemma_wf_carries(b, a);
    }
}

proof fn lemma_wf_carries(a: Board, b: Board)
    requires
        a.pieces == b.pieces,
        a.colors == b.colors,
        a.wf(),
    ensures
        b.wf(),
{
    assert forall|p: Piece, q: Piece, s: int|
        p != q && #[trigger] b.piece_set(p).contains(s) implies !#[trigger] b.piece_set(q).contains(
        s,
    ) by {
        assert(a.piece_set(p).contains(s));
        assert(!a.piece_set(q).contains(s));
    }
    assert forall|s: int| b.has_piece_on(s) <==> #[trigger] b.occupied().contains(s) by {
        assert(a.occupied().contains(s) == b.occupied().contains(s));
        if b.has_piece_on(s) {
            let p = choose|p: Piece| #[trigger] b.piece_set(p).contains(s);
            assert(a.piece_set(p).contains(s));
            assert(a.has_piece_on(s));
        }
        if a.has_piece_on(s) {
            let p = choose|p: Piece| #[trigger] a.piece_set(p).contains(s);
            assert(b.piece_set(p).contains(s));
        }
    }
}

/// Putting a piece on a free square of a well-formed board keeps it well
/// formed, and adds that square to the set of its kind and color alone.
pub proof fn lemma_add_piece(before: Board, after: Board, piece: Piece, color: Color, s: int)
    requires
        after.piece_set(piece) =~= before.piece_set(piece).insert(s),
        after.color_set(color) =~= before.color_set(color).insert(s),
        forall|p: Piece| p != piece ==> after.pieces[p.ordinal()] == before.pieces[p.ordinal()],
        forall|c: Color| c != color ==> after.colors[c.ordinal()] == before.colors[c.ordinal()],
    ensures
        before.wf() && !before.occupied().contains(s) ==> {
            &&& after.wf()
            &&& after.occupied() =~= before.occupied().insert(s)
            &&& forall|p: Piece, c: Color, t: int| #[trigger]
                after.squares_of(p, c).contains(t) <==> before.squares_of(p, c).contains(t) || (p
                    == piece && c == color && t == s)
        },
{
    if before.wf() && !before.occupied().contains(s) {
        assert(!before.has_piece_on(s));
        assert forall|p: Piece, t: int| #[trigger] after.piece_set(p).contains(t) implies (t == s
            && p == piece) || (t != s && before.piece_set(p).contains(t)) by {
            if p != piece {
                assert(after.pieces[p.ordinal()] == before.pieces[p.ordinal()]);
            }
            if before.piece_set(p).contains(t) {
                assert(before.has_piece_on(t));
            }
        }
        assert forall|p: Piece, t: int| #[trigger] before.piece_set(p).contains(t) implies after.piece_set(
            p,
        ).contains(t) by {
            if p != piece {
                assert(after.pieces[p.ordinal()] == before.pieces[p.ordinal()]);
            }
        }
        assert forall|c: Color, t: int| #[trigger] after.color_set(c).contains(t) <==> (t == s && c
            == color) || (t != s && before.color_set(c).contains(t)) by {
            if c != color {
                assert(after.colors[c.ordinal()] == before.colors[c.ordinal()]);
            }
        }
        assert forall|t: int| after.has_piece_on(t) <==> #[trigger] after.occupied().contains(t) by {
            if after.has_piece_on(t) {
                let p = choose|p: Piece| #[trigger] after.piece_set(p).contains(t);
                if t != s {
                    assert(before.piece_set(p).contains(t));
                    assert(before.has_piece_on(t));
                    assert(before.occupied().contains(t));
                }
            }
            if after.occupied().contains(t) {
                if t == s {
                    assert(after.piece_set(piece).contains(t));
                } else {
                    assert(before.occupied().contains(t));
                    assert(before.has_piece_on(t));
                    let p = choose|p: Piece| #[trigger] before.piece_set(p).contains(t);
                    assert(after.piece_set(p).contains(t));
                }
            }
        }
    }
}

/// Taking a piece off the square where it stands keeps a well-formed board well formed.
pub proof fn lemma_remove_keeps_wf(before: Board, after: Board, piece: Piece, color: Color, s: int)
    requires
        after.piece_set(piece) =~= before.piece_set(piece).remove(s),
        after.color_set(color) =~= before.color_set(color).remove(s),
        forall|p: Piece| p != piece ==> after.pieces[p.ordinal()] == before.pieces[p.ordinal()],
        forall|c: Color| c != color ==> after.colors[c.ordinal()] == before.colors[c.ordinal()],
    ensures
        before.wf() && before.squares_of(piece, color).contains(s) ==> after.wf(),
{
    if before.wf() && before.squares_of(piece, color).contains(s) {
        assert(before.piece_set(piece).contains(s));
        assert(before.color_set(color).contains(s));
        assert forall|p: Piece, t: int| #[trigger] after.piece_set(p).contains(t) <==> t != s
            && before.piece_set(p).contains(t) by {
            if p != piece {
                assert(after.pieces[p.ordinal()] == before.pieces[p.ordinal()]);
                assert(!before.piece_set(p).contains(s));
            }
        }
        assert forall|c: Color, t: int| #[trigger] after.color_set(c).contains(t) <==> t != s
            && before.color_set(c).contains(t) by {
            if c != color {
                assert(after.colors[c.ordinal()] == before.colors[c.ordinal()]);
                if c == Color::White {
                    assert(color == Color::Black);
                } else {
                    assert(color == Color::White);
                }
                assert(!before.color_set(c).contains(s));
            }
        }
        assert forall|t: int| after.has_piece_on(t) <==> #[trigger] after.occupied().contains(t) by {
            if after.has_piece_on(t) {
                let p = choose|p: Piece| #[trigger] after.piece_set(p).contains(t);
                assert(before.piece_set(p).contains(t));
                assert(before.has_piece_on(t));
                assert(before.occupied().contains(t));
            }
            if after.occupied().contains(t) {
                assert(before.occupied().contains(t));
                assert(before.has_piece_on(t));
                let p = choose|p: Piece| #[trigger] before.piece_set(p).contains(t);
                assert(after.piece_set(p).contains(t));
            }
        }
    }
}

/// On a well-formed board the twelve sets of squares by piece kind and color
/// are pairwise disjoint, and together they are the occupied squares.
pub proof fn lemma_partition(b: Board)
    requires
        b.wf(),
    ensures
        forall|p: Piece, c: Color, q: Piece, d: Color|
            (p != q || c != d) ==> (#[trigger] b.squares_of(p, c)).disjoint(
                #[trigger] b.squares_of(q, d),
            ),
        forall|s: int|
            b.occupied().contains(s) <==> exists|p: Piece, c: Color| #[trigger]
                b.squares_of(p, c).contains(s),
{
    assert forall|p: Piece, c: Color, q: Piece, d: Color| (p != q || c != d) implies (
    #[trigger] b.squares_of(p, c)).disjoint(#[trigger] b.squares_of(q, d)) by {
        assert forall|s: int| !(b.squares_of(p, c).contains(s) && b.squares_of(q, d).contains(s)) by {
            if b.squares_of(p, c).contains(s) && b.squares_of(q, d).contains(s) {
                assert(b.piece_set(p).contains(s) && b.piece_set(q).contains(s));
                assert(b.color_set(c).contains(s) && b.color_set(d).contains(s));
                if c != d {
                    if c == Color::White {
                        assert(d == Color::Black);
                    } else {
                        assert(d == Color::White);
                    }
                }
            }
        }
    }
    assert forall|s: int|
        b.occupied().contains(s) <==> exists|p: Piece, c: Color| #[trigger]
            b.squares_of(p, c).contains(s) by {
        if b.occupied().contains(s) {
            assert(b.has_piece_on(s));
            let p = choose|p: Piece| #[trigger] b.piece_set(p).contains(s);
            if b.color_set(Color::White).contains(s) {
                assert(b.squares_of(p, Color::White).contains(s));
            } else {
                assert(b.squares_of(p, Color::Black).contains(s));
            }
        }
        if exists|p: Piece, c: Color| #[trigger] b.squares_of(p, c).contains(s) {
            let (p, c) = choose|p: Piece, c: Color| #[trigger] b.squares_of(p, c).contains(s);
            assert(b.color_set(c).contains(s));
            if c == Color::White {
            } else {
                assert(c == Color::Black);
            }
        }
    }
}

/// The phase that the material gives is never negative. It stays within the
/// full phase exactly while the weighted count of knights, bishops, rooks and
/// queens stays within 24, as it does with no more of each kind than a game
/// starts with; it is the full phase with exactly those, and zero exactly
/// when kings and pawns alone are left.
pub proof fn lemma_phase_range(b: Board)
    requires
        b.phase == b.phase_of_material(),
    ensures
        0 <= b.phase,
        b.phase <= FULL_PHASE <==> b.material(Piece::Knight) + b.material(Piece::Bishop) + 2
            * b.material(Piece::Rook) + 4 * b.material(Piece::Queen) <= 24,
        b.material(Piece::Knight) <= 4 && b.material(Piece::Bishop) <= 4 && b.material(Piece::Rook)
            <= 4 && b.material(Piece::Queen) <= 2 ==> b.phase <= FULL_PHASE,
        b.material(Piece::Knight) == 4 && b.material(Piece::Bishop) == 4 && b.material(Piece::Rook)
            == 4 && b.material(Piece::Queen) == 2 ==> b.phase == FULL_PHASE,
        b.phase == 0 <==> b.material(Piece::Knight) == 0 && b.material(Piece::Bishop) == 0
            && b.material(Piece::Rook) == 0 && b.material(Piece::Queen) == 0,
{
}

} // verus!
