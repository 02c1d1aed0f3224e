use vbtools::detect_events;
use vbtools::detect_rallies;
use vbtools::EventSegmenter;
use vbtools::RallyInterval;
use vbtools::ScoredFrame;
use vbtools::SegmenterConfig;
use vbtools::WhistleEvent;

fn frames_from(scores: &[u64], spacing: u64) -> Vec<ScoredFrame> {
    scores
        .iter()
        .enumerate()
        .map(|(i, &score)| ScoredFrame { time: i as u64 * spacing, score })
        .collect()
}

fn config(threshold: u64, merge_gap: u64, min_duration: u64) -> SegmenterConfig {
    SegmenterConfig { threshold, merge_gap, min_duration }
}

// Ten one-second frames, candidate runs at indices 2..=3 and 7..=9, with a
// merge gap wide enough to bridge the one-second frame spacing: two events
// and one rally between their ends.
#[test]
fn scenario_two_runs_one_rally() {
    let frames = frames_from(&[10000, 10000, 2000, 2000, 10000, 10000, 10000, 2000, 2000, 2000], 1000);
    let cfg = config(5000, 1500, 100);
    let events = detect_events(&frames, cfg);
    assert_eq!(events, vec![
        WhistleEvent { start: 2000, end: 3000 },
        WhistleEvent { start: 7000, end: 9000 },
    ]);
    let rallies = detect_rallies(&frames, cfg);
    assert_eq!(rallies, vec![RallyInterval { start: 3000, end: 9000 }]);
}

// With the merge gap smaller than the frame spacing, no two candidate
// frames ever merge: every event is a zero-duration point and the duration
// filter drops them all.
#[test]
fn merge_gap_below_frame_spacing_yields_nothing() {
    let frames = frames_from(&[10000, 10000, 2000, 2000, 10000, 10000, 10000, 2000, 2000, 2000], 1000);
    let cfg = config(5000, 500, 100);
    assert_eq!(detect_events(&frames, cfg), vec![]);
    assert_eq!(detect_rallies(&frames, cfg), vec![]);
}

// Empty input: zero events, zero rallies, not an error.
#[test]
fn empty_input_yields_nothing() {
    let frames: Vec<ScoredFrame> = Vec::new();
    let cfg = config(5000, 500, 100);
    assert_eq!(detect_events(&frames, cfg), vec![]);
    assert_eq!(detect_rallies(&frames, cfg), vec![]);
}

// Every frame scores at or above the threshold: zero events.
#[test]
fn all_scores_at_or_above_threshold_yield_nothing() {
    let frames = frames_from(&[5000, 6000, 9999, 5000, 7500], 100);
    let cfg = config(5000, 500, 100);
    assert_eq!(detect_events(&frames, cfg), vec![]);
}

// A single candidate run longer than the minimum duration survives as one
// event with the run's first and last frame times.
#[test]
fn single_long_run_survives_exactly() {
    let frames = frames_from(&[9000, 2000, 2000, 2000, 9000, 9000], 100);
    let cfg = config(5000, 400, 150);
    let events = detect_events(&frames, cfg);
    assert_eq!(events, vec![]);

    // An odd survivor count drops the trailing event, so pair the run with a
    // second one to see it in the output.
    let frames = frames_from(&[9000, 2000, 2000, 2000, 9000, 9000, 9000, 9000, 2000, 2000, 2000, 2000], 100);
    let events = detect_events(&frames, cfg);
    assert_eq!(events, vec![
        WhistleEvent { start: 100, end: 300 },
        WhistleEvent { start: 800, end: 1100 },
    ]);
}

// Two candidate runs separated by a time gap at most the merge gap fuse
// into one event from the first run's start to the second run's end.
#[test]
fn close_runs_merge() {
    // Runs at indices 1..=2 and 4..=5, 100 units apart frame to frame; the
    // gap between the first run's end (200) and the second run's start (400)
    // is 200, within the merge gap of 250.
    let frames = frames_from(&[9000, 2000, 2000, 9000, 2000, 2000, 9000, 9000, 2000, 2000, 2000, 2000, 2000, 2000], 100);
    let cfg = config(5000, 250, 50);
    let events = detect_events(&frames, cfg);
    assert_eq!(events, vec![
        WhistleEvent { start: 100, end: 500 },
        WhistleEvent { start: 800, end: 1300 },
    ]);
}

// The same two runs with a merge gap below their distance stay distinct.
#[test]
fn distant_runs_stay_distinct() {
    let frames = frames_from(&[9000, 2000, 2000, 9000, 9000, 9000, 2000, 2000, 9000], 100);
    let cfg = config(5000, 150, 50);
    let events = detect_events(&frames, cfg);
    assert_eq!(events, vec![
        WhistleEvent { start: 100, end: 200 },
        WhistleEvent { start: 600, end: 700 },
    ]);
}

// A gap of exactly the merge gap still merges: only a strictly larger gap
// opens a new event.
#[test]
fn gap_exactly_merge_gap_merges() {
    let frames = frames_from(&[9000, 2000, 2000, 9000, 2000, 2000, 9000, 9000, 2000, 2000, 2000, 2000, 2000], 100);
    let cfg = config(5000, 200, 50);
    let events = detect_events(&frames, cfg);
    assert_eq!(events, vec![
        WhistleEvent { start: 100, end: 500 },
        WhistleEvent { start: 800, end: 1200 },
    ]);
}

// A run of duration exactly the minimum is dropped: only strictly longer
// events survive.
#[test]
fn duration_exactly_minimum_is_dropped() {
    let frames = frames_from(&[9000, 2000, 2000, 9000, 9000], 100);
    let cfg = config(5000, 500, 100);
    assert_eq!(detect_events(&frames, cfg), vec![]);
}

// A single-frame spike below the threshold never survives, whatever its
// score.
#[test]
fn single_frame_spike_is_dropped() {
    let frames = frames_from(&[9000, 9000, 0, 9000, 9000, 2000, 2000, 2000, 9000, 2000, 2000, 2000], 100);
    let cfg = config(5000, 100, 100);
    let events = detect_events(&frames, cfg);
    // The spike at index 2 forms a zero-duration event; the two real runs
    // (each 200 long) survive.
    assert_eq!(events, vec![
        WhistleEvent { start: 500, end: 700 },
        WhistleEvent { start: 900, end: 1100 },
    ]);
}

// Three surviving events: the trailing unmatched one is discarded and the
// output has exactly one rally, from the first two events.
#[test]
fn three_surviving_events_one_rally() {
    let frames = frames_from(
        &[2000, 2000, 2000, 9000, 9000, 2000, 2000, 2000, 9000, 9000, 2000, 2000, 2000, 9000],
        100,
    );
    let cfg = config(5000, 150, 100);
    let events = detect_events(&frames, cfg);
    assert_eq!(events, vec![
        WhistleEvent { start: 0, end: 200 },
        WhistleEvent { start: 500, end: 700 },
    ]);
    let rallies = detect_rallies(&frames, cfg);
    assert_eq!(rallies, vec![RallyInterval { start: 200, end: 700 }]);
}

// Running the detection twice on the same scores and configuration yields
// identical events and rallies.
#[test]
fn detection_is_deterministic() {
    let frames = frames_from(&[9000, 2000, 2000, 2000, 9000, 9000, 2000, 2000, 2000, 9000], 100);
    let cfg = config(5000, 150, 100);
    let events_first = detect_events(&frames, cfg);
    let events_second = detect_events(&frames, cfg);
    assert_eq!(events_first, events_second);
    let rallies_first = detect_rallies(&frames, cfg);
    let rallies_second = detect_rallies(&frames, cfg);
    assert_eq!(rallies_first, rallies_second);
}

// Feeding the segmenter frame by frame matches the one-shot run.
#[test]
fn streaming_matches_one_shot() {
    let frames = frames_from(&[9000, 2000, 2000, 2000, 9000, 9000, 2000, 2000, 2000, 9000], 100);
    let cfg = config(5000, 150, 100);
    let mut segmenter = EventSegmenter::new(cfg);
    for frame in &frames {
        segmenter.push_frame(frame.time, frame.score);
    }
    assert_eq!(segmenter.finish(), detect_events(&frames, cfg));
}

// The default configuration values carried by the library.
#[test]
fn default_configuration_values() {
    assert_eq!(vbtools::DEFAULT_THRESHOLD_MILLI, 5000);
    assert_eq!(vbtools::DEFAULT_MERGE_GAP_MILLIS, 500);
    assert_eq!(vbtools::DEFAULT_MIN_EVENT_MILLIS, 100);
    assert_eq!(vbtools::DEFAULT_PRE_ROLL_MILLIS, 9000);
    assert_eq!(vbtools::DEFAULT_TRAILING_TRIM_MILLIS, 1000);
}
