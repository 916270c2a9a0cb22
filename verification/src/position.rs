use vstd::prelude::*;
use vstd::set_lib::lemma_map_size;

use crate::bitboard::lemma_bitboard_size;
use crate::board::{Board, FULL_PHASE};
use crate::color::Color;
use crate::index::{IDX_MATERIAL_EG, IDX_MATERIAL_MG, IDX_PSQT_EG, IDX_PSQT_MG, SIZE_FEATURES};
use crate::piece::{piece_of_ordinal, Piece};
use crate::square::Square;

verus! {

/// How a game ended, seen from White's side.
#[derive(Debug, Clone, Copy, PartialEq, Eq, Structural)]
pub enum Outcome {
    /// White lost: label 0.
    Loss,
    /// The game was drawn: label one half.
    Draw,
    /// White won: label 1.
    Win,
}

impl Outcome {
    /// The label of the outcome in half points: 0, 1 or 2.
    pub open spec fn halves(self) -> int {
        match self {
            Outcome::Loss => 0,
            Outcome::Draw => 1,
            Outcome::Win => 2,
        }
    }

    /// Returns the label of the outcome in half points.
    pub fn half_points(self) -> (h: u8)
        ensures
            h == self.halves(),
    {
        match self {
            Outcome::Loss => 0,
            Outcome::Draw => 1,
            Outcome::Win => 2,
        }
    }
}

/// One term of the linear evaluation of a position.
#[derive(Debug, Clone, Copy, PartialEq, Eq, Structural)]
pub struct Feature {
    /// Coefficient of the feature, in twenty-fourths.
    pub coefficient: i64,
    /// Index of the feature in the weight vector.
    pub index: usize,
}

impl Feature {
    /// Returns the feature with that coefficient and index.
    pub fn new(coefficient: i64, index: usize) -> (f: Feature)
        ensures
            f.coefficient == coefficient,
            f.index == index,
    {
        Feature { coefficient, index }
    }

    /// The feature at the same index with the coefficient of opposite sign.
    pub open spec fn negated(self) -> Feature {
        Feature { coefficient: (-self.coefficient) as i64, index: self.index }
    }
}

/// The index of the square on the same file whose rank is counted from the other side.
pub open spec fn mirror_index(s: int) -> int {
    8 * (7 - s / 8) + s % 8
}

/// White's pieces of a kind less Black's.
pub open spec fn material_balance(b: Board, piece: Piece) -> int {
    b.squares_of(piece, Color::White).len() - b.squares_of(piece, Color::Black).len()
}

/// One where White has a piece of the kind on square `s`, less one where Black
/// has a piece of the kind on the mirrored square.
pub open spec fn psqt_balance(b: Board, piece: Piece, s: int) -> int {
    (if b.squares_of(piece, Color::White).contains(s) {
        1int
    } else {
        0int
    }) - (if b.squares_of(piece, Color::Black).contains(mirror_index(s)) {
        1int
    } else {
        0int
    })
}

/// The features that a balance gives at the given phase: none where the
/// balance is zero, else a midgame feature weighted by the phase followed by
/// an endgame feature weighted by what the phase leaves of the whole.
pub open spec fn feature_pair(balance: int, phase: int, mg_index: int, eg_index: int) -> Seq<
    Feature,
> {
    if balance == 0 {
        Seq::<Feature>::empty()
    } else {
        seq![
            Feature { coefficient: (balance * phase) as i64, index: mg_index as usize },
            Feature { coefficient: (balance * (FULL_PHASE - phase)) as i64, index: eg_index as usize },
        ]
    }
}

/// The material features of the first `n` piece kinds, in order of the kinds.
pub open spec fn material_features(b: Board, n: int) -> Seq<Feature>
    decreases n,
{
    if n <= 0 {
        Seq::<Feature>::empty()
    } else {
        material_features(b, n - 1) + feature_pair(
            material_balance(b, piece_of_ordinal(n - 1)),
            b.phase as int,
            IDX_MATERIAL_MG + n - 1,
            IDX_MATERIAL_EG + n - 1,
        )
    }
}

/// The piece-square features of the first `n` cells, a cell being a square
/// and a piece kind: the squares in ascending order, and on each square the
/// six kinds in ascending order.
pub open spec fn psqt_features(b: Board, n: int) -> Seq<Feature>
    decreases n,
{
    if n <= 0 {
        Seq::<Feature>::empty()
    } else {
        let s = (n - 1) / 6;
        let p = (n - 1) % 6;
        psqt_features(b, n - 1) + feature_pair(
            psqt_balance(b, piece_of_ordinal(p), s),
            b.phase as int,
            IDX_PSQT_MG + p * 64 + s,
            IDX_PSQT_EG + p * 64 + s,
        )
    }
}

/// The features of a position: the material features of the five kinds below
/// the king, then the piece-square features of all 64 squares.
pub open spec fn features_of(b: Board) -> Seq<Feature> {
    material_features(b, 5) + psqt_features(b, 384)
}

/// The features of a position together with the outcome of its game.
#[derive(Debug)]
pub struct Position {
    /// The terms of the position's evaluation that are not zero.
    pub features: Vec<Feature>,
    /// The outcome of the game the position was taken from.
    pub label: Outcome,
}

impl Position {
    /// Whether every feature of the position indexes a weight vector of length `size`.
    pub open spec fn fits(self, size: int) -> bool {
        forall|i: int| 0 <= i < self.features@.len() ==> (#[trigger] self.features@[i]).index < size
    }

    /// Returns `true` if every feature of the position indexes a weight
    /// vector of length `size`.
    pub fn indexes_within(&self, size: usize) -> (r: bool)
        ensures
            r == self.fits(size as int),
    {
        let mut i: usize = 0;
        while i < self.features.len()
            invariant
                i <= self.features@.len(),
                forall|j: int| 0 <= j < i ==> (#[trigger] self.features@[j]).index < size,
            decreases self.features@.len() - i,
        {
            if self.features[i].index >= size {
                return false;
            }
            i += 1;
        }
        true
    }

    /// Extracts the features of the board and labels them with the outcome.
    pub fn new(board: Board, label: Outcome) -> (p: Position)
        ensures
            p.features@ == features_of(board),
            p.label == label,
            p.features@.len() <= SIZE_FEATURES,
            p.fits(SIZE_FEATURES as int),
    {
        let mut features: Vec<Feature> = Vec::new();
        Position::add_material_features(&mut features, &board);
        Position::add_psqt_features(&mut features, &board);
        proof {
            lemma_features_fit(board);
        }
        Position { features, label }
    }

    /// Appends the midgame and endgame feature of a balance that is not zero.
    fn add_pair(features: &mut Vec<Feature>, balance: i64, phase: u32, mg_index: usize, eg_index: usize)
        requires
            -64 <= balance <= 64,
        ensures
            final(features)@ == old(features)@ + feature_pair(
                balance as int,
                phase as int,
                mg_index as int,
                eg_index as int,
            ),
    {
        if balance != 0 {
            let share: i64 = phase as i64;
            let rest: i64 = FULL_PHASE as i64 - share;
            assert(-64 * 0x1_0000_0000 <= balance * share <= 64 * 0x1_0000_0000) by (nonlinear_arith)
                requires
                    -64 <= balance <= 64,
                    0 <= share < 0x1_0000_0000,
            ;
            assert(-64 * 0x1_0000_0000 <= balance * rest <= 64 * 0x1_0000_0000) by (nonlinear_arith)
                requires
                    -64 <= balance <= 64,
                    -0x1_0000_0000 < rest <= 24,
            ;
            features.push(Feature::new(balance * share, mg_index));
            features.push(Feature::new(balance * rest, eg_index));
            proof {
                assert(features@ =~= old(features)@ + feature_pair(
                    balance as int,
                    phase as int,
                    mg_index as int,
                    eg_index as int,
                ));
            }
        } else {
            proof {
                assert(features@ =~= old(features)@ + Seq::<Feature>::empty());
            }
        }
    }

    /// Appends the material features of the board.
    fn add_material_features(features: &mut Vec<Feature>, board: &Board)
        ensures
            final(features)@ == old(features)@ + material_features(*board, 5),
    {
        let mut piece_idx: usize = 0;
        proof {
            assert(features@ =~= old(features)@ + material_features(*board, 0));
        }
        while piece_idx < 5
            invariant
                piece_idx <= 5,
                features@ == old(features)@ + material_features(*board, piece_idx as int),
            decreases 5 - piece_idx,
        {
            let piece = Piece::from_index(piece_idx);
            let white = board.of(piece, Color::White).count();
            let black = board.of(piece, Color::Black).count();
            let balance: i64 = white as i64 - black as i64;
            let ghost before = features@;
            Position::add_pair(
                features,
                balance,
                board.phase,
                IDX_MATERIAL_MG + piece_idx,
                IDX_MATERIAL_EG + piece_idx,
            );
            proof {
                assert(balance == material_balance(*board, piece));
                assert(features@ =~= old(features)@ + material_features(*board, piece_idx + 1));
            }
            piece_idx += 1;
        }
    }

    /// Appends the piece-square features of the board.
    fn add_psqt_features(features: &mut Vec<Feature>, board: &Board)
        ensures
            final(features)@ == old(features)@ + psqt_features(*board, 384),
    {
        let mut square_idx: usize = 0;
        proof {
            assert(features@ =~= old(features)@ + psqt_features(*board, 0));
        }
        while square_idx < 64
            invariant
                square_idx <= 64,
                features@ == old(features)@ + psqt_features(*board, 6 * square_idx),
            decreases 64 - square_idx,
        {
            let square = Square::from_index(square_idx);
            let mirrored = square.flip();
            let mut piece_idx: usize = 0;
            while piece_idx < 6
                invariant
                    piece_idx <= 6,
                    square_idx < 64,
                    square.0 == square_idx,
                    mirrored.0 == mirror_index(square_idx as int),
                    mirrored.on_board(),
                    features@ == old(features)@ + psqt_features(*board, 6 * square_idx + piece_idx),
                decreases 6 - piece_idx,
            {
                let piece = Piece::from_index(piece_idx);
                let white: i64 = if board.of(piece, Color::White).contains(square) {
                    1
                } else {
                    0
                };
                let black: i64 = if board.of(piece, Color::Black).contains(mirrored) {
                    1
                } else {
                    0
                };
                let balance: i64 = white - black;
                Position::add_pair(
                    features,
                    balance,
                    board.phase,
                    IDX_PSQT_MG + piece_idx * 64 + square_idx,
                    IDX_PSQT_EG + piece_idx * 64 + square_idx,
                );
                proof {
                    let n = 6 * square_idx + piece_idx + 1;
                    assert((n - 1) / 6 == square_idx && (n - 1) % 6 == piece_idx);
                    assert(balance == psqt_balance(*board, piece, square_idx as int));
                    assert(features@ =~= old(features)@ + psqt_features(*board, n));
                }
                piece_idx += 1;
            }
            square_idx += 1;
        }
    }
}

/// A position has at most 778 features, two for each of the five material
/// balances and of the 384 piece-square balances, and each of them indexes
/// the weight vector.
pub proof fn lemma_features_fit(b: Board)
    ensures
        features_of(b).len() <= SIZE_FEATURES,
        forall|i: int| 0 <= i < features_of(b).len() ==> 0 <= (#[trigger] features_of(b)[i]).index
            < SIZE_FEATURES,
{
    lemma_material_features_fit(b, 5);
    lemma_psqt_features_fit(b, 384);
}

proof fn lemma_material_features_fit(b: Board, n: int)
    requires
        0 <= n <= 5,
    ensures
        material_features(b, n).len() <= 2 * n,
        forall|i: int| 0 <= i < material_features(b, n).len() ==> 0 <= (
        #[trigger] material_features(b, n)[i]).index < IDX_PSQT_MG,
    decreases n,
{
    if n > 0 {
        lemma_material_features_fit(b, n - 1);
    }
}

proof fn lemma_psqt_features_fit(b: Board, n: int)
    requires
        0 <= n <= 384,
    ensures
        psqt_features(b, n).len() <= 2 * n,
        forall|i: int| 0 <= i < psqt_features(b, n).len() ==> IDX_PSQT_MG <= (
        #[trigger] psqt_features(b, n)[i]).index < SIZE_FEATURES,
    decreases n,
{
    if n > 0 {
        lemma_psqt_features_fit(b, n - 1);
    }
}

/// The features with every coefficient negated, at the same indices in the same order.
pub open spec fn negated_all(features: Seq<Feature>) -> Seq<Feature> {
    features.map_values(|f: Feature| f.negated())
}

/// Whether `b` is `a` seen from the other side: the colors swapped and the
/// ranks counted from the other end, at the same phase.
pub open spec fn mirrors(a: Board, b: Board) -> bool {
    &&& a.phase == b.phase
    &&& forall|p: Piece, s: int| #[trigger]
        b.squares_of(p, Color::White).contains(s) <==> a.squares_of(p, Color::Black).contains(
            mirror_index(s),
        )
    &&& forall|p: Piece, s: int| #[trigger]
        b.squares_of(p, Color::Black).contains(s) <==> a.squares_of(p, Color::White).contains(
            mirror_index(s),
        )
}

/// Mirroring a position negates the coefficient of every feature and keeps
/// the features' indices and their order.
pub proof fn lemma_mirror_negates(a: Board, b: Board)
    requires
        mirrors(a, b),
    ensures
        features_of(b) == negated_all(features_of(a)),
        features_of(b).len() == features_of(a).len(),
        forall|i: int| 0 <= i < features_of(a).len() ==> {
            &&& (#[trigger] features_of(b)[i]).index == features_of(a)[i].index
            &&& features_of(b)[i].coefficient == -features_of(a)[i].coefficient
        },
{
    lemma_mirror_negates_material(a, b, 5);
    lemma_mirror_negates_psqt(a, b, 384);
    let fa = features_of(a);
    assert(features_of(b) =~= negated_all(fa));
    assert forall|i: int| 0 <= i < fa.len() implies (#[trigger] features_of(b)[i]).coefficient
        == -fa[i].coefficient by {
        lemma_coefficient_bounds(a, i);
        assert(features_of(b)[i] == fa[i].negated());
    }
}

/// Mirroring the square index twice gives it back, and keeps it on the board.
pub proof fn lemma_mirror_index(s: int)
    ensures
        mirror_index(mirror_index(s)) == s,
        0 <= s < 64 <==> 0 <= mirror_index(s) < 64,
{
}

/// The sets of one kind and color hold at most 64 squares, so that a balance
/// lies between -64 and 64.
pub proof fn lemma_balance_bounds(b: Board, piece: Piece)
    ensures
        b.squares_of(piece, Color::White).finite(),
        b.squares_of(piece, Color::Black).finite(),
        -64 <= material_balance(b, piece) <= 64,
{
    lemma_squares_of_size(b, piece, Color::White);
    lemma_squares_of_size(b, piece, Color::Black);
}

proof fn lemma_squares_of_size(b: Board, piece: Piece, color: Color)
    ensures
        b.squares_of(piece, color).finite(),
        b.squares_of(piece, color).len() <= 64,
{
    let kind = b.pieces[piece.ordinal()];
    lemma_bitboard_size(kind);
    vstd::set_lib::lemma_len_subset(b.squares_of(piece, color), kind@);
}

proof fn lemma_mirrored_sets_match(x: Set<int>, y: Set<int>)
    requires
        x.finite(),
        forall|s: int| y.contains(s) <==> x.contains(mirror_index(s)),
    ensures
        x.len() == y.len(),
{
    let f = |t: int| mirror_index(t);
    assert(vstd::relations::injective_on(f, x)) by {
        assert forall|t: int, u: int| x.contains(t) && x.contains(u) && #[trigger] f(t)
            == #[trigger] f(u) implies t == u by {
            lemma_mirror_index(t);
            lemma_mirror_index(u);
        }
    }
    assert(x.map(f) =~= y) by {
        assert forall|s: int| x.map(f).contains(s) <==> y.contains(s) by {
            lemma_mirror_index(s);
            if y.contains(s) {
                assert(x.contains(mirror_index(s)) && f(mirror_index(s)) == s);
            }
            if x.map(f).contains(s) {
                let t = choose|t: int| x.contains(t) && f(t) == s;
                lemma_mirror_index(t);
            }
        }
    }
    lemma_map_size(x, y, f);
}

proof fn lemma_pair_negates(balance: int, phase: int, mg_index: int, eg_index: int)
    requires
        -64 <= balance <= 64,
        0 <= phase <= u32::MAX,
    ensures
        feature_pair(-balance, phase, mg_index, eg_index) == negated_all(
            feature_pair(balance, phase, mg_index, eg_index),
        ),
        forall|i: int| 0 <= i < feature_pair(balance, phase, mg_index, eg_index).len() ==> -64
            * 0x1_0000_0000 <= (#[trigger] feature_pair(
            balance,
            phase,
            mg_index,
            eg_index,
        )[i]).coefficient <= 64 * 0x1_0000_0000,
{
    let rest = FULL_PHASE - phase;
    assert(-64 * 0x1_0000_0000 <= balance * phase <= 64 * 0x1_0000_0000 && (-balance) * phase == -(
    balance * phase)) by (nonlinear_arith)
        requires
            -64 <= balance <= 64,
            0 <= phase < 0x1_0000_0000,
    ;
    assert(-64 * 0x1_0000_0000 <= balance * rest <= 64 * 0x1_0000_0000 && (-balance) * rest == -(
    balance * rest)) by (nonlinear_arith)
        requires
            -64 <= balance <= 64,
            -0x1_0000_0000 < rest <= 24,
    ;
    assert(feature_pair(-balance, phase, mg_index, eg_index) =~= negated_all(
        feature_pair(balance, phase, mg_index, eg_index),
    ));
}

proof fn lemma_negated_concat(x: Seq<Feature>, y: Seq<Feature>)
    ensures
        negated_all(x + y) == negated_all(x) + negated_all(y),
{
    assert(negated_all(x + y) =~= negated_all(x) + negated_all(y));
}

proof fn lemma_mirror_negates_material(a: Board, b: Board, n: int)
    requires
        mirrors(a, b),
        0 <= n <= 5,
    ensures
        material_features(b, n) == negated_all(material_features(a, n)),
    decreases n,
{
    if n > 0 {
        lemma_mirror_negates_material(a, b, n - 1);
        let p = piece_of_ordinal(n - 1);
        lemma_balance_bounds(a, p);
        lemma_mirrored_sets_match(a.squares_of(p, Color::Black), b.squares_of(p, Color::White));
        lemma_mirrored_sets_match(a.squares_of(p, Color::White), b.squares_of(p, Color::Black));
        assert(material_balance(b, p) == -material_balance(a, p));
        lemma_pair_negates(
            material_balance(a, p),
            a.phase as int,
            IDX_MATERIAL_MG + n - 1,
            IDX_MATERIAL_EG + n - 1,
        );
        lemma_negated_concat(
            material_features(a, n - 1),
            feature_pair(
                material_balance(a, p),
                a.phase as int,
                IDX_MATERIAL_MG + n - 1,
                IDX_MATERIAL_EG + n - 1,
            ),
        );
    } else {
        assert(material_features(b, n) =~= negated_all(material_features(a, n)));
    }
}

proof fn lemma_mirror_negates_psqt(a: Board, b: Board, n: int)
    requires
        mirrors(a, b),
        0 <= n <= 384,
    ensures
        psqt_features(b, n) == negated_all(psqt_features(a, n)),
    decreases n,
{
    if n > 0 {
        lemma_mirror_negates_psqt(a, b, n - 1);
        let s = (n - 1) / 6;
        let k = (n - 1) % 6;
        let p = piece_of_ordinal(k);
        lemma_mirror_index(s);
        assert(b.squares_of(p, Color::White).contains(s) <==> a.squares_of(p, Color::Black).contains(
            mirror_index(s),
        ));
        assert(b.squares_of(p, Color::Black).contains(mirror_index(s)) <==> a.squares_of(
            p,
            Color::White,
        ).contains(mirror_index(mirror_index(s))));
        assert(psqt_balance(b, p, s) == -psqt_balance(a, p, s));
        lemma_pair_negates(
            psqt_balance(a, p, s),
            a.phase as int,
            IDX_PSQT_MG + k * 64 + s,
            IDX_PSQT_EG + k * 64 + s,
        );
        lemma_negated_concat(
            psqt_features(a, n - 1),
            feature_pair(
                psqt_balance(a, p, s),
                a.phase as int,
                IDX_PSQT_MG + k * 64 + s,
                IDX_PSQT_EG + k * 64 + s,
            ),
        );
    } else {
        assert(psqt_features(b, n) =~= negated_all(psqt_features(a, n)));
    }
}

/// No coefficient of a position's features leaves the range of 64 times a phase.
proof fn lemma_coefficient_bounds(b: Board, i: int)
    requires
        0 <= i < features_of(b).len(),
    ensures
        -64 * 0x1_0000_0000 <= features_of(b)[i].coefficient <= 64 * 0x1_0000_0000,
{
    lemma_material_coefficient_bounds(b, 5);
    lemma_psqt_coefficient_bounds(b, 384);
}

proof fn lemma_material_coefficient_bounds(b: Board, n: int)
    requires
        0 <= n <= 5,
    ensures
        forall|i: int| 0 <= i < material_features(b, n).len() ==> -64 * 0x1_0000_0000 <= (
        #[trigger] material_features(b, n)[i]).coefficient <= 64 * 0x1_0000_0000,
    decreases n,
{
    if n > 0 {
        lemma_material_coefficient_bounds(b, n - 1);
        let p = piece_of_ordinal(n - 1);
        lemma_balance_bounds(b, p);
        let pair = feature_pair(
            material_balance(b, p),
            b.phase as int,
            IDX_MATERIAL_MG + n - 1,
            IDX_MATERIAL_EG + n - 1,
        );
        lemma_pair_negates(
            material_balance(b, p),
            b.phase as int,
            IDX_MATERIAL_MG + n - 1,
            IDX_MATERIAL_EG + n - 1,
        );
        let before = material_features(b, n - 1);
        assert forall|i: int| 0 <= i < material_features(b, n).len() implies -64 * 0x1_0000_0000 <= (
        #[trigger] material_features(b, n)[i]).coefficient <= 64 * 0x1_0000_0000 by {
            if i < before.len() {
                assert(material_features(b, n)[i] == before[i]);
            } else {
                assert(material_features(b, n)[i] == pair[i - before.len()]);
            }
        }
    }
}

proof fn lemma_psqt_coefficient_bounds(b: Board, n: int)
    requires
        0 <= n <= 384,
    ensures
        forall|i: int| 0 <= i < psqt_features(b, n).len() ==> -64 * 0x1_0000_0000 <= (
        #[trigger] psqt_features(b, n)[i]).coefficient <= 64 * 0x1_0000_0000,
    decreases n,
{
    if n > 0 {
        lemma_psqt_coefficient_bounds(b, n - 1);
        let s = (n - 1) / 6;
        let k = (n - 1) % 6;
        let pair = feature_pair(
            psqt_balance(b, piece_of_ordinal(k), s),
            b.phase as int,
            IDX_PSQT_MG + k * 64 + s,
            IDX_PSQT_EG + k * 64 + s,
        );
        lemma_pair_negates(
            psqt_balance(b, piece_of_ordinal(k), s),
            b.phase as int,
            IDX_PSQT_MG + k * 64 + s,
            IDX_PSQT_EG + k * 64 + s,
        );
        let before = psqt_features(b, n - 1);
        assert forall|i: int| 0 <= i < psqt_features(b, n).len() implies -64 * 0x1_0000_0000 <= (
        #[trigger] psqt_features(b, n)[i]).coefficient <= 64 * 0x1_0000_0000 by {
            if i < before.len() {
                assert(psqt_features(b, n)[i] == before[i]);
            } else {
                assert(psqt_features(b, n)[i] == pair[i - before.len()]);
            }
        }
    }
}

} // verus!
