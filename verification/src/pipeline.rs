//! The detection pipeline from scored frames to rally intervals, as one
//! pass: segment the scores into whistle events, filter them, and pair the
//! survivors into rallies. Everything here is a pure function of the scores
//! and the configuration.

use vstd::prelude::*;
use crate::segmenter::ScoredFrame;
use crate::segmenter::WhistleEvent;
use crate::segmenter::SegmenterConfig;
use crate::segmenter::EventSegmenter;
use crate::segmenter::times_nondecreasing;
use crate::segmenter::events_well_formed;
use crate::segmenter::detected_events;
use crate::rally::RallyInterval;
use crate::rally::rallies_of;
use crate::rally::pair_rallies;
use crate::rally::lemma_rallies_run_forward;

verus! {

/// The rallies detected in a score sequence: the final whistle events,
/// paired two at a time.
pub open spec fn detected_rallies(frames: Seq<ScoredFrame>, config: SegmenterConfig) -> Seq<
    RallyInterval,
> {
    rallies_of(detected_events(frames, config))
}

/// Run the whole segmentation over a time-ordered score sequence and return
/// the final, filtered, even-count whistle events.
pub fn detect_events(frames: &Vec<ScoredFrame>, config: SegmenterConfig) -> (events: Vec<
    WhistleEvent,
>)
    requires
        times_nondecreasing(frames@),
    ensures
        events@ == detected_events(frames@, config),
        events_well_formed(events@),
        events@.len() % 2 == 0,
{
    let mut segmenter = EventSegmenter::new(config);
    let total = frames.len();
    let mut i: usize = 0;
    while i < total
        invariant
            i <= total,
            total == frames@.len(),
            times_nondecreasing(frames@),
            segmenter.wf(),
            segmenter.config() == config,
            segmenter.frames_seen() == frames@.take(i as int),
        decreases total - i,
    {
        let frame = frames[i];
        proof {
            if i > 0 {
                assert(segmenter.frames_seen().last() == frames@[i as int - 1]);
            }
        }
        segmenter.push_frame(frame.time, frame.score);
        proof {
            assert(frames@.take(i as int).push(
                ScoredFrame { time: frame.time, score: frame.score },
            ) =~= frames@.take(i as int + 1));
        }
        i += 1;
    }
    proof {
        assert(frames@.take(total as int) =~= frames@);
    }
    segmenter.finish()
}

/// Run the whole detection over a time-ordered score sequence and return
/// the rally intervals, each running strictly forward in time.
pub fn detect_rallies(frames: &Vec<ScoredFrame>, config: SegmenterConfig) -> (rallies: Vec<
    RallyInterval,
>)
    requires
        times_nondecreasing(frames@),
    ensures
        rallies@ == detected_rallies(frames@, config),
        forall|i: int|
            0 <= i < rallies@.len() ==> (#[trigger] rallies@[i]).start < rallies@[i].end,
{
    let events = detect_events(frames, config);
    proof {
        lemma_rallies_run_forward(events@);
    }
    pair_rallies(&events)
}

/// Detection is a pure function of its input: two runs over the same score
/// sequence with the same configuration yield identical whistle events and
/// identical rallies.
pub proof fn lemma_detection_deterministic(
    frames_first: Seq<ScoredFrame>,
    frames_second: Seq<ScoredFrame>,
    config_first: SegmenterConfig,
    config_second: SegmenterConfig,
)
    requires
        frames_first == frames_second,
        config_first == config_second,
    ensures
        detected_events(frames_first, config_first) == detected_events(
            frames_second,
            config_second,
        ),
        detected_rallies(frames_first, config_first) == detected_rallies(
            frames_second,
            config_second,
        ),
{
}

} // verus!
