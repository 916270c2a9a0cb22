use vstd::prelude::*;

use crate::index::{IDX_MATERIAL_EG, IDX_MATERIAL_MG, IDX_PSQT_MG, SIZE_FEATURES};

verus! {

/// The weight that every piece-square entry starts from.
pub const FLAT_WEIGHT: i64 = 10;

/// The value that the material weight of a piece kind starts from, by the
/// kind's ordinal: 100 for a pawn, 300 for a knight, 325 for a bishop, 500
/// for a rook and 900 for a queen.
pub open spec fn material_value(piece: int) -> int {
    if piece == 0 {
        100
    } else if piece == 1 {
        300
    } else if piece == 2 {
        325
    } else if piece == 3 {
        500
    } else {
        900
    }
}

/// The value that the weight at `index` starts from: the material value of
/// the piece kind in both material regions, and the flat weight elsewhere.
pub open spec fn initial_weight(index: int) -> int {
    if IDX_MATERIAL_MG <= index < IDX_MATERIAL_MG + 5 {
        material_value(index - IDX_MATERIAL_MG)
    } else if IDX_MATERIAL_EG <= index < IDX_MATERIAL_EG + 5 {
        material_value(index - IDX_MATERIAL_EG)
    } else {
        FLAT_WEIGHT as int
    }
}

/// Returns the material value that a piece kind starts from.
fn seed_value(piece: usize) -> (v: i64)
    requires
        piece < 5,
    ensures
        v == material_value(piece as int),
{
    if piece == 0 {
        100
    } else if piece == 1 {
        300
    } else if piece == 2 {
        325
    } else if piece == 3 {
        500
    } else {
        900
    }
}

/// Returns the weight vector that tuning starts from.
pub fn get_weights() -> (weights: Vec<i64>)
    ensures
        weights@.len() == SIZE_FEATURES,
        forall|i: int| 0 <= i < SIZE_FEATURES ==> #[trigger] weights@[i] == initial_weight(i),
{
    let mut weights: Vec<i64> = Vec::new();
    let mut i: usize = 0;
    while i < SIZE_FEATURES
        invariant
            i <= SIZE_FEATURES,
            weights@.len() == i,
            forall|j: int| 0 <= j < i ==> #[trigger] weights@[j] == FLAT_WEIGHT,
        decreases SIZE_FEATURES - i,
    {
        weights.push(FLAT_WEIGHT);
        i += 1;
    }
    let mut piece: usize = 0;
    while piece < 5
        invariant
            piece <= 5,
            weights@.len() == SIZE_FEATURES,
            forall|j: int|
                0 <= j < SIZE_FEATURES ==> #[trigger] weights@[j] == if (IDX_MATERIAL_MG <= j
                    < IDX_MATERIAL_MG + piece) || (IDX_MATERIAL_EG <= j < IDX_MATERIAL_EG + piece) {
                    initial_weight(j)
                } else {
                    FLAT_WEIGHT as int
                },
        decreases 5 - piece,
    {
        let value = seed_value(piece);
        weights[IDX_MATERIAL_MG + piece] = value;
        weights[IDX_MATERIAL_EG + piece] = value;
        piece += 1;
    }
    weights
}

} // verus!
