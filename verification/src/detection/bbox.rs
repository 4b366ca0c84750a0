//! The stride table: which anchor scale factors belong to which stride.

use vstd::prelude::*;

verus! {

/// The anchor scale factors of `stride`, largest first. A stride outside
/// the supported set has the single factor 1.
pub open spec fn scales_of(stride: u32) -> Seq<u32> {
    if stride == 8 {
        seq![2u32, 1u32]
    } else if stride == 16 {
        seq![8u32, 4u32]
    } else if stride == 32 {
        seq![32u32, 16u32]
    } else {
        seq![1u32]
    }
}

/// Returns the anchor scale factors of `stride`.
pub fn get_scales(stride: u32) -> (scales: Vec<u32>)
    ensures
        scales@ == scales_of(stride),
{
    let scales = match stride {
        8 => vec![2, 1],
        16 => vec![8, 4],
        32 => vec![32, 16],
        _ => vec![1],
    };
    assert(scales@ =~= scales_of(stride));
    scales
}

} // verus!
