use vstd::prelude::*;

verus! {

/// Where the midgame material weights begin in the weight vector.
pub const IDX_MATERIAL_MG: usize = 0;

/// Where the midgame material weights end: one weight for each piece kind but the king.
pub const SIZE_MATERIAL_MG: usize = IDX_MATERIAL_MG + 5;

/// Where the endgame material weights begin.
pub const IDX_MATERIAL_EG: usize = SIZE_MATERIAL_MG;

/// Where the endgame material weights end.
pub const SIZE_MATERIAL_EG: usize = IDX_MATERIAL_EG + 5;

/// Where the midgame piece-square tables begin.
pub const IDX_PSQT_MG: usize = SIZE_MATERIAL_EG;

/// Where the midgame piece-square tables end: 64 weights for each of the six piece kinds.
pub const SIZE_PSQT_MG: usize = IDX_PSQT_MG + 64 * 6;

/// Where the endgame piece-square tables begin.
pub const IDX_PSQT_EG: usize = SIZE_PSQT_MG;

/// Where the endgame piece-square tables end.
pub const SIZE_PSQT_EG: usize = IDX_PSQT_EG + 64 * 6;

/// The length of the weight vector.
pub const SIZE_FEATURES: usize = SIZE_PSQT_EG;

/// The four regions of the weight vector follow one another without a gap
/// and fill it: five, five, 384 and 384 weights, 778 in all.
pub proof fn lemma_layout()
    ensures
        IDX_MATERIAL_MG == 0,
        IDX_MATERIAL_EG == IDX_MATERIAL_MG + 5,
        IDX_PSQT_MG == IDX_MATERIAL_EG + 5,
        IDX_PSQT_EG == IDX_PSQT_MG + 6 * 64,
        SIZE_FEATURES == IDX_PSQT_EG + 6 * 64,
        SIZE_FEATURES == 778,
{
}

} // verus!
