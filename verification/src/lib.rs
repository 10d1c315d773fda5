//! Loudness measurement and musical key analysis on fixed-point audio data.
//!
//! Every quantity is an integer: samples are signed PCM words, energies are
//! mean squares of such words, and shares of a whole (chroma bins,
//! confidences, match strengths) are counted in millionths.
use vstd::prelude::*;

pub mod constants;
pub mod loudness;
pub mod music;
pub mod numeric;
pub mod order;
pub mod pitch;
pub mod ranking;
pub mod stereo;
pub mod technical;
pub mod utils;

verus! {

/// Adds two counters; the caller keeps the sum within `u64`.
pub fn add(left: u64, right: u64) -> (sum: u64)
    requires
        left + right <= u64::MAX,
    ensures
        sum == left + right,
{
    left + right
}

} // verus!
