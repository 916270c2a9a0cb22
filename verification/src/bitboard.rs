use vstd::prelude::*;
use vstd::std_specs::bits::{axiom_u64_trailing_zeros, u64_trailing_zeros};

use crate::square::Square;

verus! {

/// Whether bit `s` of `bits` is set; no bit is set outside 0 to 63.
pub open spec fn has_bit(bits: u64, s: int) -> bool {
    0 <= s < 64 && (bits >> (s as u64)) & 1 == 1
}

/// The number of set bits of `bits` among the lowest `n`.
pub open spec fn ones_below(bits: u64, n: nat) -> nat
    decreases n,
{
    if n == 0 {
        0
    } else {
        ones_below(bits, (n - 1) as nat) + if has_bit(bits, n - 1) {
            1nat
        } else {
            0nat
        }
    }
}

/// The positions of the set bits of `bits` among the lowest `n`.
pub open spec fn squares_below(bits: u64, n: nat) -> Set<int> {
    Set::new(|s: int| s < n && has_bit(bits, s))
}

/// `u64::count_ones` returns the number of ones in the binary representation
/// of its argument, which is the number of set bits among all 64.
pub assume_specification[ u64::count_ones ](i: u64) -> (r: u32)
    ensures
        r == ones_below(i, 64),
;

/// A set of squares, held as a 64-bit word with bit `s` standing for the
/// square of index `s`.
#[derive(Debug, Clone, Copy, PartialEq, Eq, Structural)]
pub struct Bitboard(pub u64);

impl View for Bitboard {
    type V = Set<int>;

    /// The indices of the squares in the set.
    open spec fn view(&self) -> Set<int> {
        Set::new(|s: int| has_bit(self.0, s))
    }
}

proof fn lemma_bit_or(x: u64, s: u64, t: u64)
    by (bit_vector)
    requires
        s < 64,
        t < 64,
    ensures
        ((x | (1u64 << s)) >> t) & 1 == 1 <==> ((x >> t) & 1 == 1 || t == s),
{
}

proof fn lemma_bit_clear(x: u64, s: u64, t: u64)
    by (bit_vector)
    requires
        s < 64,
        t < 64,
    ensures
        ((x & !(1u64 << s)) >> t) & 1 == 1 <==> ((x >> t) & 1 == 1 && t != s),
{
}

proof fn lemma_bit_and(x: u64, y: u64, t: u64)
    by (bit_vector)
    requires
        t < 64,
    ensures
        ((x & y) >> t) & 1 == 1 <==> ((x >> t) & 1 == 1 && (y >> t) & 1 == 1),
{
}

proof fn lemma_bit_union(x: u64, y: u64, t: u64)
    by (bit_vector)
    requires
        t < 64,
    ensures
        ((x | y) >> t) & 1 == 1 <==> ((x >> t) & 1 == 1 || (y >> t) & 1 == 1),
{
}

proof fn lemma_bit_not(x: u64, t: u64)
    by (bit_vector)
    requires
        t < 64,
    ensures
        ((!x) >> t) & 1 == 1 <==> (x >> t) & 1 != 1,
{
}

proof fn lemma_bit_differs(x: u64, y: u64, t: u64)
    by (bit_vector)
    requires
        t < 64,
        ((x ^ y) >> t) & 1 == 1,
    ensures
        ((x >> t) & 1 == 1) != ((y >> t) & 1 == 1),
{
}

proof fn lemma_zero_has_no_bit(t: u64)
    by (bit_vector)
    requires
        t < 64,
    ensures
        (0u64 >> t) & 1 == 0,
{
}

/// A word is zero exactly when none of its bits is set, and the lowest set bit
/// of a non-zero word stands at the number of its trailing zeros.
pub proof fn lemma_lowest_bit(bits: u64)
    ensures
        bits == 0 <==> Bitboard(bits)@ =~= Set::<int>::empty(),
        bits != 0 ==> has_bit(bits, u64_trailing_zeros(bits) as int),
        forall|s: int| has_bit(bits, s) ==> u64_trailing_zeros(bits) <= s,
{
    axiom_u64_trailing_zeros(bits);
    let tz = u64_trailing_zeros(bits);
    if bits != 0 {
        assert(has_bit(bits, tz as int));
        assert(Bitboard(bits)@.contains(tz as int));
    } else {
        assert forall|s: int| !has_bit(bits, s) by {
            if 0 <= s < 64 {
                lemma_zero_has_no_bit(s as u64);
            }
        }
    }
    assert forall|s: int| has_bit(bits, s) implies tz <= s by {
        if s < tz {
            let j = s as u64;
            assert((bits >> j) & 1u64 == 0u64);
        }
    }
}

/// Two bitboards that hold the same squares are the same word.
pub proof fn lemma_view_determines(a: Bitboard, b: Bitboard)
    requires
        a@ =~= b@,
    ensures
        a == b,
{
    if a.0 != b.0 {
        let u = a.0;
        let v = b.0;
        let x = u ^ v;
        assert(x != 0) by (bit_vector)
            requires
                x == u ^ v,
                u != v,
        ;
        lemma_lowest_bit(x);
        let t = u64_trailing_zeros(x);
        assert(has_bit(x, t as int));
        lemma_bit_differs(a.0, b.0, t as u64);
        assert(a@.contains(t as int) != b@.contains(t as int));
    }
}

/// The set bits below `n` are as many as `ones_below` counts.
pub proof fn lemma_ones_below_counts(bits: u64, n: nat)
    ensures
        squares_below(bits, n).finite(),
        squares_below(bits, n).len() == ones_below(bits, n),
    decreases n,
{
    if n == 0 {
        assert(squares_below(bits, 0) =~= Set::<int>::empty());
    } else {
        let m = (n - 1) as nat;
        lemma_ones_below_counts(bits, m);
        if has_bit(bits, m as int) {
            assert(squares_below(bits, n) =~= squares_below(bits, m).insert(m as int));
        } else {
            assert(squares_below(bits, n) =~= squares_below(bits, m));
        }
    }
}

/// A bitboard is a finite set of at most 64 squares, all on the board, and
/// `ones_below` over all 64 bits is its size.
pub proof fn lemma_bitboard_size(b: Bitboard)
    ensures
        b@.finite(),
        b@.len() == ones_below(b.0, 64),
        b@.len() <= 64,
        forall|s: int| b@.contains(s) ==> 0 <= s < 64,
{
    lemma_ones_below_counts(b.0, 64);
    assert(b@ =~= squares_below(b.0, 64));
    lemma_ones_below_bound(b.0, 64);
}

proof fn lemma_ones_below_bound(bits: u64, n: nat)
    ensures
        ones_below(bits, n) <= n,
    decreases n,
{
    if n > 0 {
        lemma_ones_below_bound(bits, (n - 1) as nat);
    }
}

impl Bitboard {
    /// The bitboard with no square.
    pub fn empty() -> (b: Bitboard)
        ensures
            b@ =~= Set::<int>::empty(),
            b.0 == 0,
    {
        proof {
            lemma_lowest_bit(0);
        }
        Bitboard(0)
    }

    /// Returns `true` if no square is in the set.
    pub fn is_empty(self) -> (r: bool)
        ensures
            r <==> self@ =~= Set::<int>::empty(),
    {
        proof {
            lemma_lowest_bit(self.0);
        }
        self.0 == 0
    }

    /// Returns `true` if at least one square is in the set.
    pub fn is_not_empty(self) -> (r: bool)
        ensures
            r <==> !(self@ =~= Set::<int>::empty()),
    {
        proof {
            lemma_lowest_bit(self.0);
        }
        self.0 != 0
    }

    /// Returns `true` if `square` is in the set.
    pub fn contains(self, square: Square) -> (r: bool)
        requires
            square.on_board(),
        ensures
            r <==> self@.contains(square.0 as int),
    {
        (self.0 >> (square.0 as u64)) & 1 == 1
    }

    /// Returns the number of squares in the set.
    pub fn count(self) -> (n: u32)
        ensures
            n == self@.len(),
            n <= 64,
    {
        proof {
            lemma_bitboard_size(self);
        }
        self.0.count_ones()
    }

    /// Puts `square` into the set.
    pub fn set(&mut self, square: Square)
        requires
            square.on_board(),
        ensures
            final(self)@ =~= old(self)@.insert(square.0 as int),
    {
        let ghost before = self.0;
        self.0 = self.0 | (1u64 << (square.0 as u64));
        proof {
            assert forall|t: int| #[trigger] has_bit(self.0, t) <==> (has_bit(before, t) || t == square.0) by {
                if 0 <= t < 64 {
                    lemma_bit_or(before, square.0 as u64, t as u64);
                }
            }
        }
    }

    /// Takes `square` out of the set, if it is there.
    pub fn clear(&mut self, square: Square)
        requires
            square.on_board(),
        ensures
            final(self)@ =~= old(self)@.remove(square.0 as int),
    {
        let ghost before = self.0;
        self.0 = self.0 & !(1u64 << (square.0 as u64));
        proof {
            assert forall|t: int| #[trigger] has_bit(self.0, t) <==> (has_bit(before, t) && t != square.0) by {
                if 0 <= t < 64 {
                    lemma_bit_clear(before, square.0 as u64, t as u64);
                }
            }
        }
    }

    /// Takes the square of lowest index out of the set and returns it; an
    /// empty set stays as it is and gives `None`.
    pub fn pop(&mut self) -> (r: Option<Square>)
        ensures
            old(self)@ =~= Set::<int>::empty() ==> r is None && *final(self) == *old(self),
            !(old(self)@ =~= Set::<int>::empty()) ==> r is Some,
            r matches Some(sq) ==> {
                &&& sq.on_board()
                &&& old(self)@.contains(sq.0 as int)
                &&& forall|t: int| old(self)@.contains(t) ==> sq.0 <= t
                &&& final(self)@ =~= old(self)@.remove(sq.0 as int)
            },
    {
        proof {
            lemma_lowest_bit(self.0);
            axiom_u64_trailing_zeros(self.0);
        }
        if self.is_empty() {
            return None;
        }
        let square = Square(self.0.trailing_zeros() as u8);
        self.clear(square);
        Some(square)
    }

    /// Returns the squares of the set in ascending order of their indices.
    pub fn squares(self) -> (v: Vec<Square>)
        ensures
            v@.len() == self@.len(),
            forall|i: int| 0 <= i < v@.len() ==> self@.contains((#[trigger] v@[i]).0 as int),
            forall|i: int, j: int| 0 <= i < j < v@.len() ==> v@[i].0 < v@[j].0,
            forall|s: int| self@.contains(s) ==> exists|i: int| 0 <= i < v@.len() && (#[trigger] v@[i]).0 == s,
    {
        let mut rest = self;
        let mut v: Vec<Square> = Vec::new();
        proof {
            lemma_bitboard_size(self);
        }
        loop
            invariant
                rest@.subset_of(self@),
                self@.finite(),
                v@.len() + rest@.len() == self@.len(),
                forall|i: int| 0 <= i < v@.len() ==> self@.contains((#[trigger] v@[i]).0 as int),
                forall|i: int, s: int|
                    0 <= i < v@.len() && #[trigger] rest@.contains(s) ==> (#[trigger] v@[i]).0 < s,
                forall|i: int, j: int| 0 <= i < j < v@.len() ==> v@[i].0 < v@[j].0,
                forall|s: int|
                    self@.contains(s) ==> rest@.contains(s) || exists|i: int|
                        0 <= i < v@.len() && (#[trigger] v@[i]).0 == s,
            ensures
                rest@ =~= Set::<int>::empty(),
            decreases rest@.len(),
        {
            let ghost before = rest;
            let ghost listed = v@;
            proof {
                lemma_bitboard_size(rest);
            }
            match rest.pop() {
                None => {
                    break ;
                },
                Some(square) => {
                    v.push(square);
                    proof {
                        lemma_bitboard_size(rest);
                        assert(before@.contains(square.0 as int));
                        assert forall|s: int| self@.contains(s) implies rest@.contains(s) || exists|
                            i: int,
                        |
                            0 <= i < v@.len() && (#[trigger] v@[i]).0 == s by {
                            if s == square.0 {
                                assert(v@[listed.len() as int].0 == s);
                            } else if !before@.contains(s) {
                                let i = choose|i: int|
                                    0 <= i < listed.len() && (#[trigger] listed[i]).0 == s;
                                assert(v@[i].0 == s);
                            }
                        }
                    }
                },
            }
        }
        v
    }

    /// Returns the squares that are in both sets.
    pub fn intersect(self, other: Bitboard) -> (b: Bitboard)
        ensures
            b@ =~= self@.intersect(other@),
            b.0 == self.0 & other.0,
    {
        let b = Bitboard(self.0 & other.0);
        proof {
            assert forall|t: int| #[trigger] has_bit(b.0, t) <==> (has_bit(self.0, t) && has_bit(other.0, t)) by {
                if 0 <= t < 64 {
                    lemma_bit_and(self.0, other.0, t as u64);
                }
            }
        }
        b
    }

    /// Returns the squares that are in either set.
    pub fn union(self, other: Bitboard) -> (b: Bitboard)
        ensures
            b@ =~= self@.union(other@),
            b.0 == self.0 | other.0,
    {
        let b = Bitboard(self.0 | other.0);
        proof {
            assert forall|t: int| #[trigger] has_bit(b.0, t) <==> (has_bit(self.0, t) || has_bit(other.0, t)) by {
                if 0 <= t < 64 {
                    lemma_bit_union(self.0, other.0, t as u64);
                }
            }
        }
        b
    }

    /// Returns the squares of the board that are not in the set.
    pub fn complement(self) -> (b: Bitboard)
        ensures
            forall|t: int| b@.contains(t) <==> 0 <= t < 64 && !self@.contains(t),
            b.0 == !self.0,
    {
        let b = Bitboard(!self.0);
        proof {
            assert forall|t: int| #[trigger] has_bit(b.0, t) <==> (0 <= t < 64 && !has_bit(self.0, t)) by {
                if 0 <= t < 64 {
                    lemma_bit_not(self.0, t as u64);
                }
            }
        }
        b
    }
}

} // verus!
