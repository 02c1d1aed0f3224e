//! The decoded audio track and its frame tiling: fixed-size, non-overlapping
//! sample windows, a trailing partial window discarded, each with a start
//! time derived from its index and the sample rate.

use vstd::prelude::*;
use vstd::arithmetic::div_mod::lemma_fundamental_div_mod;
use vstd::arithmetic::mul::lemma_mul_inequality;

verus! {

/// A frame size is valid for spectral analysis only when it is a power of
/// two.
pub open spec fn power_of_two(n: nat) -> bool
    decreases n,
{
    if n == 0 {
        false
    } else if n == 1 {
        true
    } else {
        n % 2 == 0 && power_of_two(n / 2)
    }
}

/// Decide whether a frame size is a power of two. A frame size that is not
/// is a configuration error, fatal before any frame is processed.
pub fn is_power_of_two(n: usize) -> (valid: bool)
    ensures
        valid == power_of_two(n as nat),
{
    if n == 0 {
        return false;
    }
    let mut m: usize = n;
    while m > 1
        invariant
            m >= 1,
            power_of_two(n as nat) == power_of_two(m as nat),
        decreases m,
    {
        if m % 2 == 1 {
            return false;
        }
        m = m / 2;
    }
    true
}

/// The full decoded audio track: mono integer samples at a fixed, positive
/// sample rate. Immutable once built.
pub struct SampleBuffer {
    samples: Vec<i16>,
    sample_rate: u32,
}

impl SampleBuffer {
    /// The samples, in playback order.
    pub closed spec fn samples(self) -> Seq<i16> {
        self.samples@
    }

    /// The sample rate, in samples per time unit squared with the driver's
    /// clock (hertz for second-based time).
    pub closed spec fn rate(self) -> u32 {
        self.sample_rate
    }

    pub open spec fn wf(self) -> bool {
        self.rate() > 0
    }

    /// How many whole frames of the given size tile the buffer; a trailing
    /// partial frame is discarded.
    pub open spec fn frame_count_spec(self, frame_size: usize) -> int
        recommends
            frame_size > 0,
    {
        (self.samples().len() as int) / (frame_size as int)
    }

    /// The start time of the frame at the given index, in milliseconds:
    /// index times frame size, as a sample count, converted by the rate.
    pub open spec fn frame_time_millis_spec(self, index: int, frame_size: usize) -> int {
        index * frame_size * 1000 / (self.rate() as int)
    }

    pub fn new(samples: Vec<i16>, sample_rate: u32) -> (buffer: Self)
        requires
            sample_rate > 0,
        ensures
            buffer.wf(),
            buffer.samples() == samples@,
            buffer.rate() == sample_rate,
    {
        SampleBuffer { samples, sample_rate }
    }

    pub fn len(&self) -> (length: usize)
        ensures
            length == self.samples().len(),
    {
        self.samples.len()
    }

    pub fn sample_rate(&self) -> (rate: u32)
        ensures
            rate == self.rate(),
    {
        self.sample_rate
    }

    pub fn frame_count(&self, frame_size: usize) -> (count: usize)
        requires
            frame_size > 0,
        ensures
            count == self.frame_count_spec(frame_size),
    {
        self.samples.len() / frame_size
    }

    /// Whole frames never reach past the end of the buffer.
    proof fn lemma_frame_in_bounds(self, index: int, frame_size: usize)
        requires
            frame_size > 0,
            0 <= index < self.frame_count_spec(frame_size),
        ensures
            index * frame_size + frame_size <= self.samples().len(),
            index * frame_size < self.samples().len(),
    {
        let len = self.samples().len() as int;
        let size = frame_size as int;
        lemma_fundamental_div_mod(len, size);
        lemma_mul_inequality(index + 1, len / size, size);
        assert((index + 1) * size == index * size + size) by (nonlinear_arith);
    }

    /// Copy out the frame at the given index: the samples from
    /// `index * frame_size` up to but not including `(index + 1) * frame_size`.
    pub fn frame(&self, index: usize, frame_size: usize) -> (window: Vec<i16>)
        requires
            frame_size > 0,
            index < self.frame_count_spec(frame_size),
        ensures
            window@ == self.samples().subrange(
                index * frame_size,
                index * frame_size + frame_size,
            ),
    {
        let total = self.samples.len();
        proof {
            self.lemma_frame_in_bounds(index as int, frame_size);
            assert(index * frame_size + frame_size <= total);
        }
        let base = index * frame_size;
        let mut window: Vec<i16> = Vec::new();
        let mut j: usize = 0;
        while j < frame_size
            invariant
                j <= frame_size,
                base == index * frame_size,
                total == self.samples().len(),
                base + frame_size <= total,
                window@ == self.samples().subrange(base as int, base + j),
            decreases frame_size - j,
        {
            window.push(self.samples[base + j]);
            assert(window@ =~= self.samples().subrange(base as int, base + j + 1));
            j += 1;
        }
        window
    }

    /// The start time of the frame at the given index, in milliseconds.
    /// The buffer must be short enough for the sample count, scaled to
    /// milliseconds, to stay within the integer range.
    pub fn frame_time_millis(&self, index: usize, frame_size: usize) -> (time: u64)
        requires
            self.wf(),
            frame_size > 0,
            index < self.frame_count_spec(frame_size),
            self.samples().len() * 1000 <= u64::MAX,
        ensures
            time == self.frame_time_millis_spec(index as int, frame_size),
    {
        proof {
            self.lemma_frame_in_bounds(index as int, frame_size);
            assert(index * frame_size * 1000 < self.samples().len() * 1000) by (nonlinear_arith)
                requires
                    index * frame_size < self.samples().len(),
            ;
        }
        let ticks: u64 = (index as u64) * (frame_size as u64);
        let scaled: u64 = ticks * 1000;
        scaled / (self.sample_rate as u64)
    }
}

} // verus!
