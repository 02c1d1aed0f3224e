//! Whistle scoring: reducing a band-limited magnitude spectrum to a single
//! deviation score. Lower scores mean the frame's energy sits closer to the
//! target frequency; the score only ever meets comparisons against a
//! threshold, so every overflowing contribution saturates at the maximum,
//! which reads as "no whistle here".

use vstd::prelude::*;

verus! {

/// One spectrum bin: a frequency and the magnitude measured there, both as
/// integer-scaled values in caller-chosen units (the driver uses
/// milli-hertz and nano-magnitude units).
#[derive(Clone, Copy, PartialEq, Eq, Structural, Debug)]
pub struct SpectrumBin {
    pub frequency: u64,
    pub magnitude: u64,
}

/// The distance between two frequencies.
pub open spec fn frequency_distance(a: u64, b: u64) -> u64 {
    if a >= b {
        (a - b) as u64
    } else {
        (b - a) as u64
    }
}

/// One bin's contribution: the squared distance from the target divided by
/// the magnitude. A zero-magnitude bin would divide by zero; it contributes
/// the maximal finite penalty instead, so silence never reads as a whistle.
/// A squared distance beyond the integer range saturates.
pub open spec fn bin_deviation(bin: SpectrumBin, target: u64) -> u64 {
    if bin.magnitude == 0 {
        u64::MAX
    } else {
        let distance = frequency_distance(target, bin.frequency);
        let squared: int = if distance * distance > u64::MAX {
            u64::MAX as int
        } else {
            distance * distance
        };
        (squared / (bin.magnitude as int)) as u64
    }
}

/// The saturating sum of the bins' contributions.
pub open spec fn deviation_sum(bins: Seq<SpectrumBin>, target: u64) -> u64
    decreases bins.len(),
{
    if bins.len() == 0 {
        0
    } else {
        deviation_sum(bins.drop_last(), target).saturating_add(
            bin_deviation(bins.last(), target),
        )
    }
}

/// The deviation score of a whole spectrum. A spectrum with no bins in the
/// band carries no energy near the target at all, so it scores the maximal
/// penalty rather than a perfect zero.
pub open spec fn spectrum_deviation(bins: Seq<SpectrumBin>, target: u64) -> u64 {
    if bins.len() == 0 {
        u64::MAX
    } else {
        deviation_sum(bins, target)
    }
}

/// Score a spectrum against the target frequency.
pub fn deviation_score(bins: &Vec<SpectrumBin>, target: u64) -> (score: u64)
    ensures
        score == spectrum_deviation(bins@, target),
{
    if bins.len() == 0 {
        return u64::MAX;
    }
    let mut sum: u64 = 0;
    let mut i: usize = 0;
    while i < bins.len()
        invariant
            i <= bins@.len(),
            sum == deviation_sum(bins@.take(i as int), target),
        decreases bins@.len() - i,
    {
        let ghost before = bins@.take(i as int);
        let ghost after = bins@.take(i as int + 1);
        assert(after.drop_last() =~= before);
        assert(after.last() == bins@[i as int]);
        let bin = bins[i];
        let contribution = if bin.magnitude == 0 {
            u64::MAX
        } else {
            let distance = if target >= bin.frequency {
                target - bin.frequency
            } else {
                bin.frequency - target
            };
            let squared = match distance.checked_mul(distance) {
                Some(s) => s,
                None => u64::MAX,
            };
            squared / bin.magnitude
        };
        assert(contribution == bin_deviation(bins@[i as int], target));
        sum = sum.saturating_add(contribution);
        i += 1;
    }
    assert(bins@.take(bins@.len() as int) =~= bins@);
    sum
}

} // verus!
