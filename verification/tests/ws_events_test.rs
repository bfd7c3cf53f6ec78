//! The push stream: the mailbox, the dispatch and the watch list.

use std::time::{Duration, Instant};

use ordo::platform::ws_events::{
    wait_slice, RaiseSignals, SpaceHints, WaitOutcome, WatchList, WsReaction, EV_ACTIVE_SPACE_CHANGED,
    EV_FOCUSED_OR_RAISED, EV_ORDERED_IN, EV_SPACE_CURRENT_CHANGED, RING_CAP, SPACE_HINT_GAP_NS,
    WAIT_SLICE_NS,
};

/// Waits turn by turn until something is due.
fn wait(
    s: &RaiseSignals,
    cursor: &mut u64,
    matches: &dyn Fn(u32) -> bool,
    deadline: Instant,
    cancel: &dyn Fn() -> bool,
) -> WaitOutcome {
    loop {
        let expired = Instant::now() >= deadline;
        if let Some(outcome) = s.wait(cursor, |w| matches(w), expired, cancel()) {
            return outcome;
        }
    }
}

fn never() -> impl Fn() -> bool {
    || false
}

#[test]
fn an_outrun_cursor_degrades_to_a_hint_not_a_lost_landing() {
    let mut s = RaiseSignals::default();
    let mut cursor = s.cursor();
    for _ in 0..(RING_CAP as u32 + 10) {
        s.push(1);
    }
    // The filter never matches, but the dropped entries force a Hint anyway.
    assert!(matches!(
        wait(&s, &mut cursor, &|w| w == 999, Instant::now() + Duration::from_millis(50), &never()),
        WaitOutcome::Hint
    ));
}

#[test]
fn cancel_ends_the_wait_within_a_slice() {
    let s = RaiseSignals::new();
    let mut cursor = s.cursor();
    let t = Instant::now();
    assert!(matches!(
        wait(&s, &mut cursor, &|_| true, Instant::now() + Duration::from_secs(5), &|| true),
        WaitOutcome::Cancelled
    ));
    assert!(t.elapsed() < Duration::from_millis(100));
}

#[test]
fn a_push_wakes_the_waiter_and_wid_filters_apply() {
    let mut s = RaiseSignals::new();
    s.push(7); // before the cursor — must not satisfy the wait
    let mut cursor = s.cursor();
    assert_eq!(s.wait(&mut cursor, |w| w == 7, false, false), None);
    s.push(9); // wrong window
    assert_eq!(s.wait(&mut cursor, |w| w == 7, false, false), None);
    s.push(7); // the one being waited for
    assert_eq!(s.wait(&mut cursor, |w| w == 7, false, false), Some(WaitOutcome::Hint));
    // Cursor advanced past all pushes: nothing left to hint about.
    assert_eq!(cursor, 3);
    assert!(matches!(
        wait(&s, &mut cursor, &|_| true, Instant::now() + Duration::from_millis(10), &never()),
        WaitOutcome::Timeout
    ));
}

#[test]
fn a_reader_who_kept_up_is_not_woken_by_others() {
    let mut s = RaiseSignals::new();
    let mut cursor = s.cursor();
    for _ in 0..RING_CAP {
        s.push(1);
    }
    assert_eq!(s.wait(&mut cursor, |w| w == 2, true, true), Some(WaitOutcome::Cancelled));
}

#[test]
fn a_slice_never_outlasts_the_deadline() {
    assert_eq!(wait_slice(5), 5);
    assert_eq!(wait_slice(u64::MAX), WAIT_SLICE_NS);
}

#[test]
fn landings_carry_the_window_and_space_changes_come_once_per_burst() {
    let mut hints = SpaceHints { last: None };
    let payload = vec![0x78, 0x56, 0x34, 0x12, 0xff];
    assert_eq!(hints.on_event(EV_FOCUSED_OR_RAISED, &payload, 0), WsReaction::Raised(0x1234_5678));
    assert_eq!(hints.on_event(EV_ORDERED_IN, &vec![1, 0, 0], 0), WsReaction::Nothing);
    assert_eq!(hints.on_event(EV_SPACE_CURRENT_CHANGED, &vec![], 10), WsReaction::SpaceHint);
    assert_eq!(
        hints.on_event(EV_ACTIVE_SPACE_CHANGED, &vec![], 9 + SPACE_HINT_GAP_NS),
        WsReaction::Nothing
    );
    assert_eq!(
        hints.on_event(EV_ACTIVE_SPACE_CHANGED, &vec![], 10 + SPACE_HINT_GAP_NS),
        WsReaction::SpaceHint
    );
    assert_eq!(hints.on_event(816, &payload, 0), WsReaction::Nothing);
}

#[test]
fn the_watch_list_is_resent_only_when_it_changes() {
    let mut list = WatchList::new();
    assert_eq!(list.subscribe(vec![3, 1, 3, 2]), Some(vec![1, 2, 3]));
    assert_eq!(list.subscribe(vec![2, 1, 3]), None);
    assert_eq!(list.subscribe(vec![2]), Some(vec![2]));
    assert_eq!(list.subscribe(vec![]), Some(vec![]));
}
