use vbtools::pair_rallies;
use vbtools::plan_clip;
use vbtools::plan_clips;
use vbtools::ClipRequest;
use vbtools::RallyInterval;
use vbtools::WhistleEvent;

// A rally starting well after the pre-roll keeps its shifted start and
// needs no clamping.
#[test]
fn pre_roll_without_clamping() {
    let rally = RallyInterval { start: 100, end: 160 };
    let request = plan_clip(rally, 9, 1);
    assert_eq!(request, ClipRequest { start: 91, duration: 59, clamped: false });
}

// A rally starting before the pre-roll reaches back past zero: the start
// clamps to zero and the request carries the warning flag.
#[test]
fn pre_roll_clamped_to_zero() {
    let rally = RallyInterval { start: 5, end: 60 };
    let request = plan_clip(rally, 9, 1);
    assert_eq!(request, ClipRequest { start: 0, duration: 54, clamped: true });
}

// A start exactly equal to the pre-roll lands on zero without clamping.
#[test]
fn pre_roll_exactly_at_start() {
    let rally = RallyInterval { start: 9, end: 30 };
    let request = plan_clip(rally, 9, 1);
    assert_eq!(request, ClipRequest { start: 0, duration: 20, clamped: false });
}

// A rally no longer than the trailing trim yields a zero-duration request
// rather than an impossible negative one.
#[test]
fn trailing_trim_saturates_duration() {
    let rally = RallyInterval { start: 50, end: 51 };
    let request = plan_clip(rally, 9, 1);
    assert_eq!(request.duration, 0);
    let request = plan_clip(RallyInterval { start: 50, end: 50 }, 9, 2);
    assert_eq!(request.duration, 0);
}

// Events pair two at a time into rallies from end to end; a trailing
// unpaired event yields no rally.
#[test]
fn pairing_events_into_rallies() {
    let events = vec![
        WhistleEvent { start: 10, end: 20 },
        WhistleEvent { start: 40, end: 55 },
        WhistleEvent { start: 70, end: 90 },
        WhistleEvent { start: 120, end: 130 },
        WhistleEvent { start: 150, end: 170 },
    ];
    let rallies = pair_rallies(&events);
    assert_eq!(rallies, vec![
        RallyInterval { start: 20, end: 55 },
        RallyInterval { start: 90, end: 130 },
    ]);
}

#[test]
fn pairing_no_events_yields_no_rallies() {
    let events: Vec<WhistleEvent> = Vec::new();
    assert_eq!(pair_rallies(&events), vec![]);
}

// Planning a clip for every rally keeps rally order and applies the same
// offsets to each.
#[test]
fn planning_all_rallies() {
    let rallies = vec![
        RallyInterval { start: 3, end: 40 },
        RallyInterval { start: 100, end: 230 },
    ];
    let requests = plan_clips(&rallies, 9, 1);
    assert_eq!(requests, vec![
        ClipRequest { start: 0, duration: 36, clamped: true },
        ClipRequest { start: 91, duration: 129, clamped: false },
    ]);
}

#[test]
fn planning_no_rallies_requests_nothing() {
    let rallies: Vec<RallyInterval> = Vec::new();
    assert_eq!(plan_clips(&rallies, 9, 1), vec![]);
}
