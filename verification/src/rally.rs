//! Rally pairing and clip planning: whistle events are grouped two at a
//! time into rally intervals, and each rally interval is turned into a
//! clip-extraction request with a pre-roll and a trailing trim applied.

use vstd::prelude::*;
use vstd::arithmetic::div_mod::lemma_fundamental_div_mod;
use crate::segmenter::WhistleEvent;
use crate::segmenter::events_well_formed;

verus! {

/// The play segment between the ends of two consecutive whistle events:
/// play resumes when one whistle ends and stops when the next one ends.
#[derive(Clone, Copy, PartialEq, Eq, Structural, Debug)]
pub struct RallyInterval {
    /// End of the whistle that resumed play.
    pub start: u64,
    /// End of the whistle that stopped play.
    pub end: u64,
}

/// The trim window handed to the clip-extraction collaborator, in the same
/// time unit as the rally it was planned from.
#[derive(Clone, Copy, PartialEq, Eq, Structural, Debug)]
pub struct ClipRequest {
    /// Requested clip start: the rally start minus the pre-roll, never
    /// negative.
    pub start: u64,
    /// Requested clip duration: the rally duration minus the trailing trim,
    /// never negative.
    pub duration: u64,
    /// True when the pre-roll reached before the start of the recording and
    /// the clip start was clamped to zero; a warning, not an error.
    pub clamped: bool,
}

/// The rallies obtained by pairing events two at a time: the pair
/// (events[2k], events[2k + 1]) yields the interval from the first event's
/// end to the second event's end. A trailing unpaired event yields nothing.
pub open spec fn rallies_of(events: Seq<WhistleEvent>) -> Seq<RallyInterval> {
    Seq::new(
        events.len() / 2,
        |i: int| RallyInterval { start: events[2 * i].end, end: events[2 * i + 1].end },
    )
}

/// Rallies paired from well-formed events run strictly forward in time.
pub proof fn lemma_rallies_run_forward(events: Seq<WhistleEvent>)
    requires
        events_well_formed(events),
    ensures
        forall|i: int|
            0 <= i < rallies_of(events).len() ==> (#[trigger] rallies_of(events)[i]).start
                < rallies_of(events)[i].end,
{
    assert forall|i: int| 0 <= i < rallies_of(events).len() implies (
    #[trigger] rallies_of(events)[i]).start < rallies_of(events)[i].end by {
        assert(events[2 * i].end < events[2 * i + 1].start);
        assert(events[2 * i + 1].start <= events[2 * i + 1].end);
    }
}

/// Three surviving events yield exactly one rally, paired from the first
/// two events' ends; the unmatched third event is discarded and changes
/// nothing.
pub proof fn lemma_three_events_one_rally(events: Seq<WhistleEvent>)
    requires
        events.len() == 3,
    ensures
        rallies_of(crate::segmenter::drop_odd(events)) == rallies_of(events),
        rallies_of(events).len() == 1,
        rallies_of(events)[0] == (RallyInterval { start: events[0].end, end: events[1].end }),
{
    assert(crate::segmenter::drop_odd(events) == events.drop_last());
    assert(rallies_of(events.drop_last()) =~= rallies_of(events));
}

/// Pair the events two at a time into rally intervals.
pub fn pair_rallies(events: &Vec<WhistleEvent>) -> (rallies: Vec<RallyInterval>)
    ensures
        rallies@ == rallies_of(events@),
{
    let mut rallies: Vec<RallyInterval> = Vec::new();
    let total = events.len();
    let count = total / 2;
    let mut i: usize = 0;
    while i < count
        invariant
            i <= count,
            total == events@.len(),
            count == events@.len() / 2,
            rallies@.len() == i,
            forall|j: int| 0 <= j < i ==> rallies@[j] == rallies_of(events@)[j],
        decreases count - i,
    {
        proof {
            lemma_fundamental_div_mod(total as int, 2);
            assert(2 * i + 1 < total);
        }
        let first = events[2 * i];
        let second = events[2 * i + 1];
        rallies.push(RallyInterval { start: first.end, end: second.end });
        i += 1;
    }
    assert(rallies@ =~= rallies_of(events@));
    rallies
}

/// What the planner requests for one rally: the start moves back by the
/// pre-roll, clamping at zero, and the duration loses the trailing trim,
/// saturating at zero.
pub open spec fn planned_clip(rally: RallyInterval, pre_roll: u64, trailing_trim: u64) -> ClipRequest {
    ClipRequest {
        start: if rally.start >= pre_roll {
            (rally.start - pre_roll) as u64
        } else {
            0
        },
        duration: if rally.end - rally.start > trailing_trim {
            (rally.end - rally.start - trailing_trim) as u64
        } else {
            0
        },
        clamped: rally.start < pre_roll,
    }
}

/// Plan the clip-extraction request for one rally.
pub fn plan_clip(rally: RallyInterval, pre_roll: u64, trailing_trim: u64) -> (request: ClipRequest)
    ensures
        request == planned_clip(rally, pre_roll, trailing_trim),
        request.clamped <==> rally.start < pre_roll,
        !request.clamped ==> request.start == rally.start - pre_roll,
        request.clamped ==> request.start == 0,
        rally.end - rally.start > trailing_trim ==> request.duration == rally.end - rally.start
            - trailing_trim,
        rally.end - rally.start <= trailing_trim ==> request.duration == 0,
{
    let start = if rally.start >= pre_roll {
        rally.start - pre_roll
    } else {
        0
    };
    let duration = if rally.end > rally.start && rally.end - rally.start > trailing_trim {
        rally.end - rally.start - trailing_trim
    } else {
        0
    };
    ClipRequest { start, duration, clamped: rally.start < pre_roll }
}

/// Plan the clip-extraction requests for every rally, in rally order.
pub fn plan_clips(rallies: &Vec<RallyInterval>, pre_roll: u64, trailing_trim: u64) -> (requests:
    Vec<ClipRequest>)
    ensures
        requests@.len() == rallies@.len(),
        forall|i: int|
            0 <= i < rallies@.len() ==> requests@[i] == planned_clip(
                rallies@[i],
                pre_roll,
                trailing_trim,
            ),
{
    let mut requests: Vec<ClipRequest> = Vec::new();
    let mut i: usize = 0;
    while i < rallies.len()
        invariant
            i <= rallies@.len(),
            requests@.len() == i,
            forall|j: int|
                0 <= j < i ==> requests@[j] == planned_clip(rallies@[j], pre_roll, trailing_trim),
        decreases rallies@.len() - i,
    {
        let request = plan_clip(rallies[i], pre_roll, trailing_trim);
        requests.push(request);
        i += 1;
    }
    requests
}

} // verus!
