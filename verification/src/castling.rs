use vstd::prelude::*;

use crate::text::chars_of;

verus! {

/// One of the four castling moves.
#[derive(Debug, Clone, Copy, PartialEq, Eq, Structural)]
pub enum CastlingKind {
    WhiteShort,
    WhiteLong,
    BlackShort,
    BlackLong,
}

impl CastlingKind {
    /// The bit that stands for this move in a rights mask.
    pub open spec fn mask(self) -> u8 {
        match self {
            CastlingKind::WhiteShort => 1,
            CastlingKind::WhiteLong => 2,
            CastlingKind::BlackShort => 4,
            CastlingKind::BlackLong => 8,
        }
    }

    /// Returns the bit that stands for this move in a rights mask.
    pub fn bit(self) -> (m: u8)
        ensures
            m == self.mask(),
    {
        match self {
            CastlingKind::WhiteShort => 1,
            CastlingKind::WhiteLong => 2,
            CastlingKind::BlackShort => 4,
            CastlingKind::BlackLong => 8,
        }
    }
}

/// The castling move that a letter of a FEN castling field grants.
pub open spec fn kind_of_letter(c: char) -> Option<CastlingKind> {
    if c == 'K' {
        Some(CastlingKind::WhiteShort)
    } else if c == 'Q' {
        Some(CastlingKind::WhiteLong)
    } else if c == 'k' {
        Some(CastlingKind::BlackShort)
    } else if c == 'q' {
        Some(CastlingKind::BlackLong)
    } else {
        None
    }
}

/// Whether every character of the field is a dash or grants a castling move.
pub open spec fn is_castling_text(field: Seq<char>) -> bool {
    forall|i: int| 0 <= i < field.len() ==> field[i] == '-' || kind_of_letter(#[trigger] field[i]) is Some
}

/// Whether some letter of the field grants `kind`.
pub open spec fn grants(field: Seq<char>, kind: CastlingKind) -> bool {
    exists|i: int| 0 <= i < field.len() && kind_of_letter(#[trigger] field[i]) == Some(kind)
}

/// The castling moves still allowed, as a mask of four bits.
#[derive(Debug, Clone, Copy, PartialEq, Eq, Structural)]
pub struct Castling(pub u8);

proof fn lemma_mask_or(x: u8, m: u8, k: u8)
    by (bit_vector)
    requires
        m == 1 || m == 2 || m == 4 || m == 8,
        k == 1 || k == 2 || k == 4 || k == 8,
    ensures
        ((x | m) & k != 0) <==> (x & k != 0 || k == m),
        x < 16 ==> (x | m) < 16,
{
}

proof fn lemma_mask_zero(k: u8)
    by (bit_vector)
    ensures
        0u8 & k == 0,
{
}

impl Castling {
    /// Whether the mask allows `kind`.
    pub open spec fn allows(self, kind: CastlingKind) -> bool {
        self.0 & kind.mask() != 0
    }

    /// The rights that allow no castling move.
    pub fn none() -> (c: Castling)
        ensures
            c.0 == 0,
            forall|kind: CastlingKind| !c.allows(kind),
    {
        proof {
            assert forall|kind: CastlingKind| !Castling(0).allows(kind) by {
                lemma_mask_zero(kind.mask());
            }
        }
        Castling(0)
    }

    /// Allows the specified castling move.
    pub fn allow(&mut self, kind: CastlingKind)
        ensures
            final(self).0 == old(self).0 | kind.mask(),
            forall|k: CastlingKind| final(self).allows(k) <==> old(self).allows(k) || k == kind,
            old(self).0 < 16 ==> final(self).0 < 16,
    {
        let ghost before = self.0;
        self.0 = self.0 | kind.bit();
        proof {
            assert forall|k: CastlingKind| self.allows(k) <==> old(self).allows(k) || k == kind by {
                lemma_mask_or(before, kind.mask(), k.mask());
            }
            lemma_mask_or(before, kind.mask(), kind.mask());
        }
    }

    /// Returns `true` if the castling move is allowed.
    pub fn is_allowed(&self, kind: CastlingKind) -> (r: bool)
        ensures
            r == self.allows(kind),
    {
        (self.0 & kind.bit()) != 0
    }

    /// Reads the characters of a FEN castling field: `K`, `Q`, `k` and `q`
    /// each allow a move, a dash allows nothing, and any other character makes
    /// the field unreadable.
    pub fn from_chars(field: &[char]) -> (r: Option<Castling>)
        ensures
            r is Some <==> is_castling_text(field@),
            r matches Some(c) ==> c.0 < 16 && forall|kind: CastlingKind|
                c.allows(kind) <==> grants(field@, kind),
    {
        let mut castling = Castling::none();
        let mut i: usize = 0;
        while i < field.len()
            invariant
                i <= field.len(),
                castling.0 < 16,
                is_castling_text(field@.take(i as int)),
                forall|kind: CastlingKind|
                    castling.allows(kind) <==> grants(field@.take(i as int), kind),
            decreases field.len() - i,
        {
            let c = field[i];
            let ghost seen = field@.take(i as int);
            let ghost next = field@.take(i + 1);
            let ghost before = castling;
            if c == 'K' {
                castling.allow(CastlingKind::WhiteShort);
            } else if c == 'Q' {
                castling.allow(CastlingKind::WhiteLong);
            } else if c == 'k' {
                castling.allow(CastlingKind::BlackShort);
            } else if c == 'q' {
                castling.allow(CastlingKind::BlackLong);
            } else if c != '-' {
                proof {
                    if is_castling_text(field@) {
                        assert(kind_of_letter(field@[i as int]) is Some);
                    }
                }
                return None;
            }
            proof {
                assert(next =~= seen.push(c));
                assert forall|kind: CastlingKind|
                    castling.allows(kind) <==> grants(next, kind) by {
                    if grants(seen, kind) {
                        let j = choose|j: int| 0 <= j < seen.len() && kind_of_letter(#[trigger] seen[j]) == Some(kind);
                        assert(kind_of_letter(next[j]) == Some(kind));
                    }
                    if kind_of_letter(c) == Some(kind) {
                        assert(kind_of_letter(next[i as int]) == Some(kind));
                    }
                    if grants(next, kind) {
                        let j = choose|j: int| 0 <= j < next.len() && kind_of_letter(#[trigger] next[j]) == Some(kind);
                        if j < i {
                            assert(kind_of_letter(seen[j]) == Some(kind));
                        }
                    }
                }
                assert forall|j: int| 0 <= j < next.len() implies next[j] == '-' || kind_of_letter(
                    #[trigger] next[j],
                ) is Some by {
                    if j < i {
                        assert(next[j] == seen[j]);
                    }
                }
            }
            i += 1;
        }
        proof {
            assert(field@.take(i as int) =~= field@);
        }
        Some(castling)
    }

    /// Reads a FEN castling field, such as `KQkq`, `Kq` or `-`.
    pub fn parse(text: &str) -> (r: Option<Castling>)
        ensures
            r is Some <==> is_castling_text(text@),
            r matches Some(c) ==> c.0 < 16 && forall|kind: CastlingKind|
                c.allows(kind) <==> grants(text@, kind),
    {
        let chars = chars_of(text);
        Castling::from_chars(chars.as_slice())
    }
}

impl Default for Castling {
    fn default() -> (c: Castling)
        ensures
            c.0 == 0,
    {
        Castling(0)
    }
}

proof fn lemma_masks_determine(x: u8, y: u8)
    by (bit_vector)
    requires
        x < 16,
        y < 16,
        (x & 1 != 0) == (y & 1 != 0),
        (x & 2 != 0) == (y & 2 != 0),
        (x & 4 != 0) == (y & 4 != 0),
        (x & 8 != 0) == (y & 8 != 0),
    ensures
        x == y,
{
}

/// Rights of four bits that allow the same castling moves are the same rights.
pub proof fn lemma_rights_determine(a: Castling, b: Castling)
    requires
        a.0 < 16,
        b.0 < 16,
        forall|kind: CastlingKind| a.allows(kind) <==> b.allows(kind),
    ensures
        a == b,
{
    assert(a.allows(CastlingKind::WhiteShort) <==> b.allows(CastlingKind::WhiteShort));
    assert(a.allows(CastlingKind::WhiteLong) <==> b.allows(CastlingKind::WhiteLong));
    assert(a.allows(CastlingKind::BlackShort) <==> b.allows(CastlingKind::BlackShort));
    assert(a.allows(CastlingKind::BlackLong) <==> b.allows(CastlingKind::BlackLong));
    lemma_masks_determine(a.0, b.0);
}

} // verus!
