//! Whistle-detection and rally-segmentation pipeline.
//!
//! The library turns a time-ordered sequence of per-frame deviation scores
//! into merged, filtered whistle events, pairs those events into rally
//! intervals, and plans the clip-extraction requests for each rally.
//! All times are integer timestamps in a caller-chosen unit (the driver
//! uses milliseconds); scores are integer-scaled deviation values, lower
//! meaning a stronger whistle match.

use vstd::prelude::*;

pub mod audio;
pub mod scorer;
pub mod segmenter;
pub mod rally;
pub mod pipeline;

pub use audio::SampleBuffer;
pub use audio::is_power_of_two;
pub use scorer::SpectrumBin;
pub use scorer::deviation_score;
pub use segmenter::ScoredFrame;
pub use segmenter::WhistleEvent;
pub use segmenter::SegmenterConfig;
pub use segmenter::EventSegmenter;
pub use rally::RallyInterval;
pub use rally::ClipRequest;
pub use rally::pair_rallies;
pub use rally::plan_clip;
pub use rally::plan_clips;
pub use pipeline::detect_events;
pub use pipeline::detect_rallies;

verus! {

/// Default detection threshold, in milli-score units (a deviation score of
/// five in whole units).
pub const DEFAULT_THRESHOLD_MILLI: u64 = 5000;

/// Default merge gap between candidate runs, in milliseconds.
pub const DEFAULT_MERGE_GAP_MILLIS: u64 = 500;

/// Default minimum event duration, in milliseconds.
pub const DEFAULT_MIN_EVENT_MILLIS: u64 = 100;

/// Default pre-roll subtracted from a rally start when planning a clip,
/// in milliseconds.
pub const DEFAULT_PRE_ROLL_MILLIS: u64 = 9000;

/// Default trailing trim subtracted from a rally duration when planning a
/// clip, in milliseconds.
pub const DEFAULT_TRAILING_TRIM_MILLIS: u64 = 1000;

} // verus!

