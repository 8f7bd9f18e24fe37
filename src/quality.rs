//! The quality transform: raw perceptual scores onto the comparison scale.
use vstd::prelude::*;

verus! {

/// Units of one point on either score scale.
pub const SCORE_SCALE: u64 = 1_000_000;

/// Raw scores below this floor are considered unreliable.
pub const RAW_FLOOR: u64 = 4_100_000;

/// The normalized value given to every raw score below the floor.
pub const FLOOR_SCORE: u64 = 1_000_000;

/// The raw width above the floor, from 4.1 up to 4.75, that is stretched
/// onto `NORMALIZED_SPAN`.
pub const RAW_SPAN: u64 = 650_000;

/// Normalized width that `RAW_SPAN` is stretched onto.
pub const NORMALIZED_SPAN: u64 = 5_000_000;

/// The normalized score of a raw score, both in millionths.
pub open spec fn normalized(raw: int) -> int {
    if raw < RAW_FLOOR {
        FLOOR_SCORE as int
    } else {
        (raw - RAW_FLOOR) * NORMALIZED_SPAN / (RAW_SPAN as int)
    }
}

/// Maps a raw perceptual score onto the normalized comparison scale.
///
/// Below the floor the metric is unreliable and the result is fixed; above
/// it the raw range is stretched linearly (rounding down).
pub fn normalize(raw: u64) -> (r: u128)
    ensures
        r == normalized(raw as int),
{
    if raw < RAW_FLOOR {
        FLOOR_SCORE as u128
    } else {
        let above = (raw - RAW_FLOOR) as u128;
        assert(above * (NORMALIZED_SPAN as u128) <= 0xffff_ffff_ffff_ffff * 5_000_000) by (nonlinear_arith)
            requires above <= 0xffff_ffff_ffff_ffff;
        above * (NORMALIZED_SPAN as u128) / (RAW_SPAN as u128)
    }
}

/// Every raw score below the floor normalizes to one point, the floor
/// itself to zero, and above the floor a higher raw score never normalizes
/// lower.
pub proof fn lemma_quality_transform(r1: int, r2: int)
    ensures
        r1 < RAW_FLOOR ==> normalized(r1) == FLOOR_SCORE,
        normalized(RAW_FLOOR as int) == 0,
        normalized(4_750_000) == 5_000_000,
        RAW_FLOOR <= r1 <= r2 ==> normalized(r1) <= normalized(r2),
{
    if RAW_FLOOR <= r1 <= r2 {
        assert((r1 - RAW_FLOOR) * 5_000_000 <= (r2 - RAW_FLOOR) * 5_000_000) by (nonlinear_arith)
            requires
                RAW_FLOOR <= r1 <= r2,
        ;
        vstd::arithmetic::div_mod::lemma_div_is_ordered(
            (r1 - RAW_FLOOR) * 5_000_000,
            (r2 - RAW_FLOOR) * 5_000_000,
            650_000,
        );
    }
}

} // verus!
