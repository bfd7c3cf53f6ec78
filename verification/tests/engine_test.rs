//! The engine: batches, bursts and cascades.

use std::collections::VecDeque;

use ordo::engine::{
    burst_record, carry_out, fold_burst, plan_batch, react, Batch, Cascade, Event, Item, Msg,
    Reaction, Todo, MAX_CASCADE,
};
use ordo::logger::Logger;
use ordo::ports::{Effector, NullEffector};
use ordo::vocab::{
    AxHintKind, Effect, Gesture, HotkeyAction, OpId, OpOutcome, Pid, Point, RescanTrigger, Ts,
    WorkspaceId,
};

fn at(n: u64) -> Ts {
    Ts { wall_ms: n as i64, mono_ns: n }
}

fn press(action: HotkeyAction) -> Msg {
    Msg::Hotkey(action, 0)
}

fn hint(pid: Option<i32>, kind: AxHintKind) -> Msg {
    Msg::Rescan(RescanTrigger::AxHint { pid: pid.map(Pid), kind })
}

fn plan(msgs: Vec<Msg>) -> Batch {
    plan_batch(msgs.into_iter().collect::<VecDeque<Msg>>())
}

fn burst(item: &Item) -> Vec<HotkeyAction> {
    match item {
        Item::Burst(presses) => presses.iter().map(|p| p.0).collect(),
        Item::Look(_) | Item::React(_) => panic!("not a burst"),
    }
}

fn looks(batch: &Batch) -> Vec<RescanTrigger> {
    let look = |item: &Item| match item {
        Item::Look(trigger) => Some(trigger.clone()),
        _ => None,
    };
    batch.items.iter().filter_map(look).collect()
}

fn fold(actions: &[HotkeyAction], current: u8, count: u8) -> Vec<HotkeyAction> {
    let presses: Vec<(HotkeyAction, u64)> = actions.iter().map(|a| (*a, 0)).collect();
    fold_burst(&presses, Some(WorkspaceId(current)), count)
}

const NEXT: HotkeyAction = HotkeyAction::WorkspaceNext;
const PREV: HotkeyAction = HotkeyAction::WorkspacePrev;

#[test]
fn queued_rescans_become_one_look_ahead_of_the_presses_they_would_have_split() {
    let focus = || AxHintKind::Other("AXFocusedWindowChanged".to_string());
    let batch = plan(vec![
        hint(Some(7), focus()),
        press(NEXT),
        hint(Some(8), focus()),
        hint(Some(7), AxHintKind::WindowCreated),
        press(NEXT),
        hint(Some(7), AxHintKind::WindowCreated),
        hint(Some(8), AxHintKind::WindowCreated),
        Msg::Shutdown,
    ]);
    let looks: Vec<(Option<i32>, bool)> = looks(&batch)
        .iter()
        .map(|t| match t {
            RescanTrigger::AxHint { pid, kind } => {
                (pid.map(|p| p.0), *kind == AxHintKind::WindowCreated)
            }
            _ => panic!("an unexpected look"),
        })
        .collect();
    assert_eq!(looks, [(Some(7), true), (Some(8), true)]);
    assert_eq!(batch.items.len(), 3, "two looks, and the two presses folded");
    assert!(batch.shutdown);
    assert_eq!(
        fold(&burst(&batch.items[2]), 1, 3),
        [HotkeyAction::WorkspaceSwitchTo(WorkspaceId(3))]
    );
}

#[test]
fn hints_that_announce_nothing_are_one_look() {
    let batch = plan(vec![
        Msg::Rescan(RescanTrigger::Periodic),
        Msg::Rescan(RescanTrigger::BackendHint { kind: "space_event".to_string() }),
        Msg::Rescan(RescanTrigger::Periodic),
    ]);
    assert_eq!(looks(&batch), [RescanTrigger::Periodic]);
    assert!(batch.items.len() == 1 && !batch.shutdown);
    assert!(plan(vec![]).items.is_empty());
}

#[test]
fn a_gesture_keeps_its_place_between_hotkeys() {
    let click = Gesture::MouseDown { at: Point { x: 960.0f64.to_bits(), y: 1075.0f64.to_bits() } };
    let batch = plan(vec![press(NEXT), Msg::Gesture(click), press(NEXT), Msg::Shutdown]);
    assert_eq!(batch.items.len(), 3, "the gesture fenced the fold");
    assert_eq!(burst(&batch.items[0]), [NEXT]);
    assert!(matches!(&batch.items[1], Item::React(Msg::Gesture(g)) if *g == click));
    assert_eq!(burst(&batch.items[2]), [NEXT]);
}

#[test]
fn a_look_serves_the_presses_before_it_and_never_crosses_another_message() {
    let batch = plan(vec![
        Msg::Rescue,
        Msg::Rescan(RescanTrigger::Periodic),
        press(NEXT),
        hint(Some(7), AxHintKind::WindowCreated),
        Msg::Engage,
        hint(Some(8), AxHintKind::WindowCreated),
    ]);
    assert!(matches!(&batch.items[0], Item::React(Msg::Rescue)));
    assert!(matches!(
        &batch.items[1],
        Item::Look(RescanTrigger::AxHint { pid: Some(Pid(7)), kind: AxHintKind::WindowCreated })
    ));
    assert_eq!(burst(&batch.items[2]), [NEXT]);
    assert!(matches!(&batch.items[3], Item::React(Msg::Engage)));
    assert!(matches!(
        &batch.items[4],
        Item::Look(RescanTrigger::AxHint { pid: Some(Pid(8)), kind: AxHintKind::WindowCreated })
    ));
    assert_eq!(batch.items.len(), 5);
}

#[test]
fn nothing_is_heard_after_a_shutdown() {
    let batch = plan(vec![Msg::Rescue, Msg::Shutdown, press(NEXT), Msg::Rescan(RescanTrigger::Periodic)]);
    assert!(batch.shutdown && looks(&batch).is_empty());
    assert_eq!(batch.items.len(), 1);
}

#[test]
fn a_burst_folds_only_where_every_step_stays_inside() {
    assert_eq!(fold(&[NEXT, NEXT], 1, 3), [HotkeyAction::WorkspaceSwitchTo(WorkspaceId(3))]);
    // A bounce that returns to where it began is nothing at all.
    assert!(fold(&[NEXT, PREV], 1, 3).is_empty());
    // Past the edge the core decides, press by press.
    assert_eq!(fold(&[NEXT, NEXT, NEXT], 1, 3), [NEXT, NEXT, NEXT]);
    assert_eq!(fold(&[PREV, NEXT], 1, 3), [PREV, NEXT]);
    // A lone press stays what it is.
    assert_eq!(fold(&[NEXT], 1, 3), [NEXT]);
    // Only the leading steps fold.
    assert_eq!(
        fold(&[NEXT, NEXT, HotkeyAction::MruApp, NEXT], 1, 3),
        [HotkeyAction::WorkspaceSwitchTo(WorkspaceId(3)), HotkeyAction::MruApp, NEXT]
    );
    assert_eq!(fold(&[HotkeyAction::MruApp, NEXT, NEXT], 1, 3), [HotkeyAction::MruApp, NEXT, NEXT]);
    // Without a known workspace there is nothing to jump from.
    assert_eq!(fold_burst(&vec![(NEXT, 0), (NEXT, 0)], None, 3), [NEXT, NEXT]);
}

#[test]
fn a_queued_burst_is_logged_with_its_presses_and_their_wait() {
    const MS: u64 = 1_000_000;
    let now = 1_000 * MS;
    let presses = vec![(NEXT, now - 300 * MS), (NEXT, now - 100 * MS)];
    let pumped = fold_burst(&presses, Some(WorkspaceId(1)), 3);
    let record = burst_record(&presses, &pumped, 4, now);
    assert_eq!((record.presses, record.pumped), (2, 1));
    assert_eq!(record.first_seq, Some(4), "a batch that pumped names its event");
    assert_eq!((record.oldest_wait, record.newest_wait), (300 * MS, 100 * MS));
    let row = Logger::begin(9).log_hotkey_batch(record, 1_234);
    assert_eq!((row.run_id, row.wall_ms, row.seq), (9, 1_234, Some(4)));
    assert_eq!((row.oldest_wait_ms, row.newest_wait_ms), (300, 100));

    let bounce = vec![(NEXT, now), (PREV, now + 5)];
    let nothing = fold_burst(&bounce, Some(WorkspaceId(1)), 3);
    let record = burst_record(&bounce, &nothing, 4, now);
    assert_eq!((record.first_seq, record.pumped), (None, 0));
    assert_eq!((record.oldest_wait, record.newest_wait), (0, 0));
}

#[test]
fn messages_become_events_stamped_on_arrival() {
    match react::<()>(press(NEXT), at(5)) {
        Reaction::Pump { fresh: false, event: Event::Hotkey { at: t, action } } => {
            assert_eq!((t, action), (at(5), NEXT));
        }
        other => panic!("{other:?}"),
    }
    assert!(matches!(
        react::<()>(Msg::EngageFresh, at(1)),
        Reaction::Pump { fresh: true, event: Event::Engaged { .. } }
    ));
    assert!(matches!(
        react::<()>(Msg::Engage, at(1)),
        Reaction::Pump { fresh: false, event: Event::Engaged { .. } }
    ));
    assert!(matches!(
        react::<()>(Msg::Rescue, at(1)),
        Reaction::Pump { event: Event::RescueEngaged { .. }, .. }
    ));
    assert!(matches!(react::<()>(Msg::SaveState, at(1)), Reaction::Save));
    assert!(matches!(react::<()>(Msg::Shutdown, at(1)), Reaction::Stop));
    assert!(matches!(
        react::<()>(Msg::Rescan(RescanTrigger::Periodic), at(1)),
        Reaction::Look(RescanTrigger::Periodic)
    ));
}

#[test]
fn a_cascade_is_first_come_first_served() {
    let mut cascade: Cascade<u32> = Cascade::new(Event::Engaged { at: at(0) });
    assert!(matches!(cascade.next_event(), Some(Event::Engaged { .. })));
    let switch = Effect::SwitchWorkspace { op: OpId(3), target: WorkspaceId(2) };
    assert!(matches!(carry_out(&switch), Todo::Execute));
    cascade.executed(at(1), &switch, Some(OpOutcome::Done));
    let rescan = Effect::RequestRescan { reason: RescanTrigger::PostEffect };
    match carry_out(&rescan) {
        Todo::Look(reason) => cascade.observed(at(2), reason, 42),
        Todo::Execute => panic!("a look is never executed"),
    }
    // Nothing to report, or nobody to report to: no event.
    cascade.executed(at(3), &switch, None);
    cascade.executed(at(3), &Effect::WarpMouse { to: Point { x: 0, y: 0 } }, Some(OpOutcome::Done));
    assert!(matches!(
        cascade.next_event(),
        Some(Event::EffectResult { op: OpId(3), outcome: OpOutcome::Done, .. })
    ));
    assert!(matches!(
        cascade.next_event(),
        Some(Event::WorldObserved { trigger: RescanTrigger::PostEffect, snap: 42, .. })
    ));
    assert!(cascade.next_event().is_none());
}

#[test]
fn a_runaway_cascade_ends_after_its_last_step() {
    let mut cascade: Cascade<()> = Cascade::new(Event::Engaged { at: at(0) });
    let mut steps = 0;
    while let Some(_event) = cascade.next_event() {
        steps += 1;
        cascade.observed(at(steps), RescanTrigger::PostEffect, ());
        cascade.observed(at(steps), RescanTrigger::PostEffect, ());
    }
    assert_eq!(steps as usize, MAX_CASCADE);
    assert_eq!(MAX_CASCADE, 64);
    // Each step took one event and brought two.
    assert_eq!(cascade.left(), MAX_CASCADE + 1);
}

#[test]
fn observe_mode_executes_nothing() {
    let switch = Effect::SwitchWorkspace { op: OpId(1), target: WorkspaceId(2) };
    assert!(NullEffector.execute(&switch).is_none());
}
