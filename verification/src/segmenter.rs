//! Event segmentation: turning a time-ordered sequence of per-frame
//! deviation scores into merged, filtered whistle events.

use vstd::prelude::*;

verus! {

/// The timestamp and deviation score of one analysis frame.
#[derive(Clone, Copy, PartialEq, Eq, Structural, Debug)]
pub struct ScoredFrame {
    /// Frame start time, in the pipeline's time unit.
    pub time: u64,
    /// Deviation score of the frame; lower means a stronger whistle match.
    pub score: u64,
}

/// A detected whistle: a maximal merged run of candidate frames.
#[derive(Clone, Copy, PartialEq, Eq, Structural, Debug)]
pub struct WhistleEvent {
    /// Time of the first frame of the run.
    pub start: u64,
    /// Time of the last frame of the run; at least `start`.
    pub end: u64,
}

/// Detection parameters, all in the same units as the frames they are
/// applied to.
#[derive(Clone, Copy, PartialEq, Eq, Structural, Debug)]
pub struct SegmenterConfig {
    /// Scores strictly below this value mark a frame as a whistle candidate.
    pub threshold: u64,
    /// A candidate frame at most this far after the previous event's end
    /// extends that event instead of opening a new one.
    pub merge_gap: u64,
    /// Events whose duration is at most this value are dropped after the
    /// per-frame pass.
    pub min_duration: u64,
}

/// Frames arrive oldest first, with timestamps that never go backwards.
pub open spec fn times_nondecreasing(frames: Seq<ScoredFrame>) -> bool {
    forall|i: int, j: int| 0 <= i <= j < frames.len() ==> frames[i].time <= frames[j].time
}

/// Each event spans forward in time, and distinct events are strictly
/// separated: an earlier event ends before a later one starts.
pub open spec fn events_well_formed(events: Seq<WhistleEvent>) -> bool {
    &&& (forall|i: int| 0 <= i < events.len() ==> events[i].start <= events[i].end)
    &&& (forall|i: int, j: int| 0 <= i < j < events.len() ==> events[i].end < events[j].start)
}

/// One transition of the segmentation state machine. A frame scoring at or
/// above the threshold changes nothing. A candidate frame opens a new
/// one-point event when there is no event yet or the frame falls more than
/// the merge gap after the last event's end; otherwise it extends the last
/// event in place.
pub open spec fn segment_step(
    events: Seq<WhistleEvent>,
    frame: ScoredFrame,
    threshold: u64,
    merge_gap: u64,
) -> Seq<WhistleEvent> {
    if frame.score >= threshold {
        events
    } else if events.len() == 0 || frame.time - events.last().end > merge_gap {
        events.push(WhistleEvent { start: frame.time, end: frame.time })
    } else {
        events.update(
            events.len() - 1,
            WhistleEvent { start: events.last().start, end: frame.time },
        )
    }
}

/// The events produced by running the state machine over all frames in
/// order, before duration filtering.
pub open spec fn segment(frames: Seq<ScoredFrame>, threshold: u64, merge_gap: u64) -> Seq<
    WhistleEvent,
>
    decreases frames.len(),
{
    if frames.len() == 0 {
        Seq::empty()
    } else {
        segment_step(
            segment(frames.drop_last(), threshold, merge_gap),
            frames.last(),
            threshold,
            merge_gap,
        )
    }
}

/// An event survives the duration filter when it is strictly longer than
/// the minimum duration.
pub open spec fn long_enough(event: WhistleEvent, min_duration: u64) -> bool {
    event.end - event.start > min_duration
}

/// The subsequence of events strictly longer than the minimum duration,
/// in their original order.
pub open spec fn keep_long(events: Seq<WhistleEvent>, min_duration: u64) -> Seq<WhistleEvent>
    decreases events.len(),
{
    if events.len() == 0 {
        Seq::empty()
    } else {
        let rest = keep_long(events.drop_last(), min_duration);
        if long_enough(events.last(), min_duration) {
            rest.push(events.last())
        } else {
            rest
        }
    }
}

/// Whistles must come in pairs bounding a rally: an unmatched trailing
/// event is discarded, never an error.
pub open spec fn drop_odd(events: Seq<WhistleEvent>) -> Seq<WhistleEvent> {
    if events.len() % 2 == 1 {
        events.drop_last()
    } else {
        events
    }
}

/// The full detection result for a score sequence: segment, drop short
/// events, and discard an unmatched trailing event.
pub open spec fn detected_events(frames: Seq<ScoredFrame>, config: SegmenterConfig) -> Seq<
    WhistleEvent,
> {
    drop_odd(keep_long(segment(frames, config.threshold, config.merge_gap), config.min_duration))
}

/// The running state machine keeps its events well formed, and never holds
/// an event ending after the latest frame seen.
pub proof fn lemma_segment_well_formed(frames: Seq<ScoredFrame>, threshold: u64, merge_gap: u64)
    requires
        times_nondecreasing(frames),
    ensures
        events_well_formed(segment(frames, threshold, merge_gap)),
        segment(frames, threshold, merge_gap).len() > 0 ==> frames.len() > 0 && segment(
            frames,
            threshold,
            merge_gap,
        ).last().end <= frames.last().time,
    decreases frames.len(),
{
    if frames.len() > 0 {
        let prefix = frames.drop_last();
        assert(times_nondecreasing(prefix)) by {
            assert(forall|i: int, j: int|
                0 <= i <= j < prefix.len() ==> prefix[i] == frames[i] && prefix[j] == frames[j]);
        }
        lemma_segment_well_formed(prefix, threshold, merge_gap);
        let prev = segment(prefix, threshold, merge_gap);
        let f = frames.last();
        let cur = segment(frames, threshold, merge_gap);
        if f.score >= threshold {
            if prev.len() > 0 {
                assert(prefix.last().time <= frames.last().time);
            }
        } else if prev.len() == 0 || f.time - prev.last().end > merge_gap {
            let ev = WhistleEvent { start: f.time, end: f.time };
            assert(cur == prev.push(ev));
            assert forall|i: int, j: int| 0 <= i < j < cur.len() implies cur[i].end
                < cur[j].start by {
                if j < prev.len() {
                    assert(cur[i] == prev[i] && cur[j] == prev[j]);
                } else {
                    assert(cur[j] == ev);
                    if i < prev.len() - 1 {
                        assert(prev[i].end < prev[prev.len() - 1].start);
                    }
                    assert(prev[prev.len() - 1].end < f.time);
                }
            }
        } else {
            let ev = WhistleEvent { start: prev.last().start, end: f.time };
            assert(cur == prev.update(prev.len() - 1, ev));
            assert(prev.last().end <= prefix.last().time <= f.time);
        }
    }
}

/// The event list that the state machine has built so far, together with
/// the frames it was built from; the list always equals the specification
/// run over exactly those frames.
pub struct EventSegmenter {
    events: Vec<WhistleEvent>,
    config: SegmenterConfig,
    frames: Ghost<Seq<ScoredFrame>>,
}

impl EventSegmenter {
    /// The frames pushed so far, oldest first.
    pub closed spec fn frames_seen(self) -> Seq<ScoredFrame> {
        self.frames@
    }

    /// The parameters this segmenter was created with.
    pub closed spec fn config(self) -> SegmenterConfig {
        self.config
    }

    /// The (unfiltered) events accumulated so far.
    pub closed spec fn pending(self) -> Seq<WhistleEvent> {
        self.events@
    }

    pub open spec fn wf(self) -> bool {
        &&& times_nondecreasing(self.frames_seen())
        &&& self.pending() == segment(
            self.frames_seen(),
            self.config().threshold,
            self.config().merge_gap,
        )
    }

    /// A frame may be pushed when it does not precede the latest frame seen.
    pub open spec fn can_accept(self, time: u64) -> bool {
        self.frames_seen().len() == 0 || self.frames_seen().last().time <= time
    }

    pub fn new(config: SegmenterConfig) -> (segmenter: Self)
        ensures
            segmenter.wf(),
            segmenter.frames_seen() == Seq::<ScoredFrame>::empty(),
            segmenter.config() == config,
    {
        EventSegmenter { events: Vec::new(), config, frames: Ghost(Seq::empty()) }
    }

    /// Feed the next frame, in time order, to the state machine.
    pub fn push_frame(&mut self, time: u64, score: u64)
        requires
            old(self).wf(),
            old(self).can_accept(time),
        ensures
            final(self).wf(),
            final(self).frames_seen() == old(self).frames_seen().push(
                ScoredFrame { time, score },
            ),
            final(self).config() == old(self).config(),
    {
        proof {
            lemma_segment_well_formed(self.frames@, self.config.threshold, self.config.merge_gap);
        }
        let ghost f = ScoredFrame { time, score };
        let ghost grown = self.frames@.push(f);
        assert(grown.drop_last() =~= self.frames@);
        assert(times_nondecreasing(grown)) by {
            assert(forall|i: int|
                0 <= i < self.frames@.len() ==> grown[i] == self.frames@[i]);
        }
        if score < self.config.threshold {
            let n = self.events.len();
            if n == 0 {
                self.events.push(WhistleEvent { start: time, end: time });
            } else {
                let last = self.events[n - 1];
                assert(last.end <= time);
                if time - last.end > self.config.merge_gap {
                    self.events.push(WhistleEvent { start: time, end: time });
                } else {
                    self.events.pop();
                    self.events.push(WhistleEvent { start: last.start, end: time });
                    assert(self.events@ =~= old(self).pending().update(
                        old(self).pending().len() - 1,
                        WhistleEvent { start: last.start, end: time },
                    ));
                }
            }
        }
        self.frames = Ghost(grown);
    }

    /// Close the run: drop every event not strictly longer than the minimum
    /// duration, then drop an unmatched trailing event, and hand the final
    /// list out.
    pub fn finish(self) -> (events: Vec<WhistleEvent>)
        requires
            self.wf(),
        ensures
            events@ == detected_events(self.frames_seen(), self.config()),
            events_well_formed(events@),
            events@.len() % 2 == 0,
            forall|i: int|
                0 <= i < events@.len() ==> long_enough(events@[i], self.config().min_duration),
    {
        proof {
            lemma_segment_well_formed(self.frames@, self.config.threshold, self.config.merge_gap);
            lemma_keep_long_well_formed(self.events@, self.config.min_duration);
            lemma_keep_long_all_long(self.events@, self.config.min_duration);
        }
        let mut kept: Vec<WhistleEvent> = Vec::new();
        let n = self.events.len();
        let mut i: usize = 0;
        while i < n
            invariant
                i <= n,
                n == self.events@.len(),
                events_well_formed(self.events@),
                kept@ == keep_long(self.events@.take(i as int), self.config.min_duration),
            decreases n - i,
        {
            let ghost before = self.events@.take(i as int);
            let ghost after = self.events@.take(i as int + 1);
            assert(after.drop_last() =~= before);
            assert(after.last() == self.events@[i as int]);
            let ev = self.events[i];
            if ev.end - ev.start > self.config.min_duration {
                kept.push(ev);
            }
            i += 1;
        }
        assert(self.events@.take(n as int) =~= self.events@);
        let ghost filtered = keep_long(self.events@, self.config.min_duration);
        if kept.len() % 2 == 1 {
            kept.pop();
            assert(kept@ =~= drop_odd(filtered));
        }
        assert(forall|i: int| 0 <= i < kept@.len() ==> kept@[i] == filtered[i]);
        kept
    }
}

/// Every event that survives the duration filter is strictly longer than
/// the minimum duration.
pub proof fn lemma_keep_long_all_long(events: Seq<WhistleEvent>, min_duration: u64)
    ensures
        forall|j: int|
            0 <= j < keep_long(events, min_duration).len() ==> long_enough(
                #[trigger] keep_long(events, min_duration)[j],
                min_duration,
            ),
    decreases events.len(),
{
    if events.len() > 0 {
        lemma_keep_long_all_long(events.drop_last(), min_duration);
        let rest = keep_long(events.drop_last(), min_duration);
        let cur = keep_long(events, min_duration);
        assert forall|j: int| 0 <= j < cur.len() implies long_enough(cur[j], min_duration) by {
            if long_enough(events.last(), min_duration) {
                assert(cur == rest.push(events.last()));
                if j < rest.len() {
                    assert(cur[j] == rest[j]);
                }
            } else {
                assert(cur == rest);
            }
        }
    }
}

/// The duration filter keeps the surviving events well formed, and never
/// moves an event's end past the last input event's end.
pub proof fn lemma_keep_long_well_formed(events: Seq<WhistleEvent>, min_duration: u64)
    requires
        events_well_formed(events),
    ensures
        events_well_formed(keep_long(events, min_duration)),
        keep_long(events, min_duration).len() > 0 ==> events.len() > 0 && keep_long(
            events,
            min_duration,
        ).last().end <= events.last().end,
    decreases events.len(),
{
    if events.len() > 0 {
        let prefix = events.drop_last();
        assert(events_well_formed(prefix)) by {
            assert(forall|i: int| 0 <= i < prefix.len() ==> prefix[i] == events[i]);
        }
        lemma_keep_long_well_formed(prefix, min_duration);
        let rest = keep_long(prefix, min_duration);
        if long_enough(events.last(), min_duration) {
            let cur = keep_long(events, min_duration);
            assert(cur == rest.push(events.last()));
            if rest.len() > 0 {
                assert(prefix.last() == events[events.len() - 2]);
                assert(rest.last().end <= prefix.last().end);
            }
            assert forall|i: int, j: int| 0 <= i < j < cur.len() implies cur[i].end
                < cur[j].start by {
                if j < rest.len() {
                    assert(cur[i] == rest[i] && cur[j] == rest[j]);
                } else {
                    assert(cur[j] == events.last());
                    assert(cur[i] == rest[i]);
                    if i < rest.len() - 1 {
                        assert(rest[i].end < rest[rest.len() - 1].start);
                    }
                    assert(rest[rest.len() - 1].end <= prefix.last().end);
                    assert(prefix.last().end < events.last().start);
                }
            }
        }
    }
}

/// With every frame scoring at or above the threshold, the state machine
/// never opens an event.
pub proof fn lemma_segment_all_at_or_above(
    frames: Seq<ScoredFrame>,
    threshold: u64,
    merge_gap: u64,
)
    requires
        forall|i: int| 0 <= i < frames.len() ==> frames[i].score >= threshold,
    ensures
        segment(frames, threshold, merge_gap) == Seq::<WhistleEvent>::empty(),
    decreases frames.len(),
{
    if frames.len() > 0 {
        let prefix = frames.drop_last();
        assert(forall|i: int| 0 <= i < prefix.len() ==> prefix[i] == frames[i]);
        lemma_segment_all_at_or_above(prefix, threshold, merge_gap);
    }
}

/// A score sequence with no frame below the threshold yields no events at
/// all.
pub proof fn lemma_no_candidates_no_events(frames: Seq<ScoredFrame>, config: SegmenterConfig)
    requires
        forall|i: int| 0 <= i < frames.len() ==> frames[i].score >= config.threshold,
    ensures
        detected_events(frames, config) == Seq::<WhistleEvent>::empty(),
{
    lemma_segment_all_at_or_above(frames, config.threshold, config.merge_gap);
    assert(keep_long(Seq::<WhistleEvent>::empty(), config.min_duration) == Seq::<
        WhistleEvent,
    >::empty());
}

/// Where exactly the frames with indices `a..=b` score below the threshold,
/// and consecutive candidates sit at most the merge gap apart, the state
/// machine holds exactly one event: from the first candidate's time to the
/// latest candidate's time seen so far.
pub proof fn lemma_segment_single_run(
    frames: Seq<ScoredFrame>,
    threshold: u64,
    merge_gap: u64,
    a: int,
    b: int,
)
    requires
        times_nondecreasing(frames),
        0 <= a <= b,
        a < frames.len(),
        forall|i: int|
            0 <= i < frames.len() ==> (frames[i].score < threshold <==> a <= i <= b),
        forall|i: int|
            a < i <= b && i < frames.len() ==> (#[trigger] frames[i]).time - frames[i - 1].time <= merge_gap,
    ensures
        segment(frames, threshold, merge_gap) == seq![
            WhistleEvent {
                start: frames[a].time,
                end: frames[vstd::math::min(b, frames.len() - 1)].time,
            },
        ],
    decreases frames.len(),
{
    let n = frames.len() as int;
    let prefix = frames.drop_last();
    assert(forall|i: int| 0 <= i < n - 1 ==> prefix[i] == frames[i]);
    let f = frames.last();
    if n - 1 == a {
        lemma_segment_all_at_or_above(prefix, threshold, merge_gap);
        assert(f.score < threshold);
        assert(segment(frames, threshold, merge_gap) =~= seq![
            WhistleEvent { start: frames[a].time, end: frames[a].time },
        ]);
    } else {
        assert(times_nondecreasing(prefix));
        lemma_segment_single_run(prefix, threshold, merge_gap, a, b);
        let prev = segment(prefix, threshold, merge_gap);
        if n - 1 <= b {
            assert(f.score < threshold);
            assert(prev.last().end == frames[n - 2].time);
            assert(f.time - frames[n - 2].time <= merge_gap);
            assert(segment(frames, threshold, merge_gap) =~= seq![
                WhistleEvent { start: frames[a].time, end: f.time },
            ]);
        } else {
            assert(f.score >= threshold);
            assert(vstd::math::min(b, n - 2) == b && vstd::math::min(b, n - 1) == b);
        }
    }
}

/// A single contiguous candidate run whose span is strictly longer than
/// the minimum duration survives the duration filter as exactly one event,
/// with the run's first and last frame times as its boundaries.
pub proof fn lemma_single_run_one_event(
    frames: Seq<ScoredFrame>,
    config: SegmenterConfig,
    a: int,
    b: int,
)
    requires
        times_nondecreasing(frames),
        0 <= a <= b < frames.len(),
        forall|i: int|
            0 <= i < frames.len() ==> (frames[i].score < config.threshold <==> a <= i <= b),
        forall|i: int|
            a < i <= b ==> (#[trigger] frames[i]).time - frames[i - 1].time <= config.merge_gap,
        frames[b].time - frames[a].time > config.min_duration,
    ensures
        keep_long(segment(frames, config.threshold, config.merge_gap), config.min_duration)
            == seq![WhistleEvent { start: frames[a].time, end: frames[b].time }],
{
    lemma_segment_single_run(frames, config.threshold, config.merge_gap, a, b);
    let ev = WhistleEvent { start: frames[a].time, end: frames[b].time };
    let events = seq![ev];
    assert(long_enough(ev, config.min_duration));
    assert(events.drop_last() =~= Seq::<WhistleEvent>::empty());
    assert(keep_long(Seq::<WhistleEvent>::empty(), config.min_duration) == Seq::<
        WhistleEvent,
    >::empty());
    assert(keep_long(events, config.min_duration) =~= seq![ev]);
}

/// Where exactly the frames with indices `a..=b` and `c..=d` score below
/// the threshold, consecutive candidates inside each run sit at most the
/// merge gap apart, and at least one frame separates the runs, the state
/// machine holds one merged event when the runs are at most the merge gap
/// apart in time, and two distinct events otherwise.
#[verifier::rlimit(100)]
#[verifier::spinoff_prover]
pub proof fn lemma_segment_two_runs(
    frames: Seq<ScoredFrame>,
    threshold: u64,
    merge_gap: u64,
    a: int,
    b: int,
    c: int,
    d: int,
)
    requires
        times_nondecreasing(frames),
        0 <= a <= b,
        b + 1 < c <= d,
        c < frames.len(),
        forall|i: int|
            0 <= i < frames.len() ==> (frames[i].score < threshold <==> (a <= i <= b || c <= i
                <= d)),
        forall|i: int|
            ((a < i <= b) || (c < i <= d)) && i < frames.len() ==> (#[trigger] frames[i]).time
                - frames[i - 1].time <= merge_gap,
    ensures
        frames[c].time - frames[b].time <= merge_gap ==> segment(frames, threshold, merge_gap)
            == seq![
            WhistleEvent {
                start: frames[a].time,
                end: frames[vstd::math::min(d, frames.len() - 1)].time,
            },
        ],
        frames[c].time - frames[b].time > merge_gap ==> segment(frames, threshold, merge_gap)
            == seq![
            WhistleEvent { start: frames[a].time, end: frames[b].time },
            WhistleEvent {
                start: frames[c].time,
                end: frames[vstd::math::min(d, frames.len() - 1)].time,
            },
        ],
    decreases frames.len(),
{
    let n = frames.len() as int;
    let prefix = frames.drop_last();
    assert(forall|i: int| 0 <= i < n - 1 ==> prefix[i] == frames[i]);
    assert(times_nondecreasing(prefix));
    let f = frames.last();
    if n - 1 == c {
        lemma_segment_single_run(prefix, threshold, merge_gap, a, b);
        let prev = segment(prefix, threshold, merge_gap);
        assert(vstd::math::min(b, n - 2) == b);
        assert(prev == seq![WhistleEvent { start: frames[a].time, end: frames[b].time }]);
        assert(f.score < threshold);
        if frames[c].time - frames[b].time <= merge_gap {
            assert(segment(frames, threshold, merge_gap) =~= seq![
                WhistleEvent { start: frames[a].time, end: frames[c].time },
            ]);
        } else {
            assert(segment(frames, threshold, merge_gap) =~= seq![
                WhistleEvent { start: frames[a].time, end: frames[b].time },
                WhistleEvent { start: frames[c].time, end: frames[c].time },
            ]);
        }
    } else {
        lemma_segment_two_runs(prefix, threshold, merge_gap, a, b, c, d);
        let prev = segment(prefix, threshold, merge_gap);
        if n - 1 <= d {
            assert(f.score < threshold);
            assert(vstd::math::min(d, n - 2) == n - 2);
            assert(prev.last().end == frames[n - 2].time);
            assert(f.time - frames[n - 2].time <= merge_gap);
            if frames[c].time - frames[b].time <= merge_gap {
                assert(segment(frames, threshold, merge_gap) =~= seq![
                    WhistleEvent { start: frames[a].time, end: f.time },
                ]);
            } else {
                assert(segment(frames, threshold, merge_gap) =~= seq![
                    WhistleEvent { start: frames[a].time, end: frames[b].time },
                    WhistleEvent { start: frames[c].time, end: f.time },
                ]);
            }
        } else {
            assert(f.score >= threshold);
            assert(vstd::math::min(d, n - 2) == d && vstd::math::min(d, n - 1) == d);
        }
    }
}

/// Two candidate runs merge into one event exactly when the second starts
/// at most the merge gap after the first ends; otherwise they stay two
/// distinct events with their own run boundaries.
#[verifier::rlimit(100)]
#[verifier::spinoff_prover]
pub proof fn lemma_two_runs_merge_or_split(
    frames: Seq<ScoredFrame>,
    config: SegmenterConfig,
    a: int,
    b: int,
    c: int,
    d: int,
)
    requires
        times_nondecreasing(frames),
        0 <= a <= b,
        b + 1 < c <= d < frames.len(),
        forall|i: int|
            0 <= i < frames.len() ==> (frames[i].score < config.threshold <==> (a <= i <= b || c
                <= i <= d)),
        forall|i: int|
            ((a < i <= b) || (c < i <= d)) ==> (#[trigger] frames[i]).time - frames[i - 1].time
                <= config.merge_gap,
    ensures
        frames[c].time - frames[b].time <= config.merge_gap ==> segment(
            frames,
            config.threshold,
            config.merge_gap,
        ) == seq![WhistleEvent { start: frames[a].time, end: frames[d].time }],
        frames[c].time - frames[b].time > config.merge_gap ==> segment(
            frames,
            config.threshold,
            config.merge_gap,
        ) == seq![
            WhistleEvent { start: frames[a].time, end: frames[b].time },
            WhistleEvent { start: frames[c].time, end: frames[d].time },
        ],
{
    let n = frames.len() as int;
    lemma_segment_two_runs(frames, config.threshold, config.merge_gap, a, b, c, d);
    let result = segment(frames, config.threshold, config.merge_gap);
    assert(vstd::math::min(d, n - 1) == d);
    if frames[c].time - frames[b].time <= config.merge_gap {
        assert(result =~= seq![WhistleEvent { start: frames[a].time, end: frames[d].time }]);
    } else {
        assert(result =~= seq![
            WhistleEvent { start: frames[a].time, end: frames[b].time },
            WhistleEvent { start: frames[c].time, end: frames[d].time },
        ]);
    }
}

/// No event whose duration is at most the minimum ever survives into the
/// final event list, whatever its frames scored.
pub proof fn lemma_short_events_never_survive(frames: Seq<ScoredFrame>, config: SegmenterConfig)
    ensures
        forall|j: int|
            0 <= j < detected_events(frames, config).len() ==> long_enough(
                #[trigger] detected_events(frames, config)[j],
                config.min_duration,
            ),
{
    let filtered = keep_long(
        segment(frames, config.threshold, config.merge_gap),
        config.min_duration,
    );
    lemma_keep_long_all_long(segment(frames, config.threshold, config.merge_gap), config.min_duration);
    assert(forall|j: int|
        0 <= j < detected_events(frames, config).len() ==> detected_events(frames, config)[j]
            == filtered[j]);
}

} // verus!
