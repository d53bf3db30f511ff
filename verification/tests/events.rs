use cloudkitty_core::events::{ActivityEnd, ActivityLog, DistressEvent, DistressLog};
use cloudkitty_core::kitty::Activity;
use cloudkitty_core::needs::NeedKind;

fn event(tick: u64) -> DistressEvent {
    DistressEvent {
        kitty_id: 1,
        need: NeedKind::Eat,
        tick,
    }
}

#[test]
fn log_keeps_the_most_recent_events() {
    let mut log = DistressLog::new(3);
    for tick in 0..5 {
        log.record(event(tick));
    }
    let ticks: Vec<u64> = log.events().map(|e| e.tick).collect();
    assert_eq!(ticks, vec![2, 3, 4], "oldest events are dropped first");
    assert_eq!(log.len(), 3);
}

#[test]
fn capacity_is_never_zero() {
    let mut log = DistressLog::new(0);
    log.record(event(1));
    assert_eq!(log.len(), 1);

    // A defaulted log (capacity 0) degrades to a ring of one rather than
    // growing unbounded.
    let mut defaulted = ActivityLog::default();
    for started in 0..5 {
        defaulted.record(ActivityEnd {
            kitty_id: 1,
            activity: Activity::Eating,
            started,
            ended: started + 1,
            mutual_ticks: 0,
            drip_ticks: 0,
        });
    }
    assert_eq!(defaulted.len(), 1);
}

#[test]
fn set_capacity_trims_oldest_first_and_floors_at_one() {
    let mut log = DistressLog::new(5);
    for tick in 0..5 {
        log.record(event(tick));
    }
    log.set_capacity(3);
    let ticks: Vec<u64> = log.events().map(|e| e.tick).collect();
    assert_eq!(
        ticks,
        vec![2, 3, 4],
        "shrinking the ring keeps the newest events, dropping oldest first"
    );

    // Growing never loses anything.
    log.set_capacity(10);
    assert_eq!(log.len(), 3);
    log.record(event(5));
    assert_eq!(log.len(), 4, "the grown ring accepts more events");

    // A zero re-stamp floors at one, matching `new` and `record`.
    log.set_capacity(0);
    let ticks: Vec<u64> = log.events().map(|e| e.tick).collect();
    assert_eq!(ticks, vec![5], "capacity 0 degrades to a ring of one");
    log.record(event(6));
    assert_eq!(log.len(), 1);
}

#[test]
fn an_activity_end_knows_its_inclusive_span() {
    let end = ActivityEnd {
        kitty_id: 1,
        activity: Activity::Eating,
        started: 10,
        ended: 12,
        mutual_ticks: 0,
        drip_ticks: 0,
    };
    assert_eq!(end.span(), 3, "ticks 10, 11 and 12 were all serviced");
}
