//! The desktop side: spaces, displays, windows, stacking and effects.

use std::collections::HashMap;
use std::sync::{Arc, Mutex};

use ordo::backend::{no_virtual_monitors, BackendError, MonitorWorkspace};
use ordo::cli::{backend_label, banner, choose_run, pid_in, pid_path, start, turn, Backend, Turn};
use ordo::engine::Msg;
use ordo::menubar::VirtualMonitors;
use ordo::platform::ax::{
    asks_app, make_key_window, move_target, move_windows, raise_sequenced, read_window, window_id,
    AxWindow, Chased, ChaseStep, Hold, Raising,
};
use ordo::platform::display::{active_displays, display_uuid, RawDisplay};
use ordo::platform::display_watch::{clock_ms, DisplaySettle, Poster, SETTLE_MS};
use ordo::platform::effector::{execute, found_outcome, result_outcome, Act, FOCUS_NOT_FOUND};
use ordo::platform::emulated_backend;
use ordo::platform::gesture::{post, swipe, SwipeEvent};
use ordo::platform::mission_control::{switch, Pull};
use ordo::platform::native_backend::{
    arrived, capabilities, drive_all_displays, plan_move, rescue_window, topology, verify_move,
    Drive, SwitchStep, Switching, POLLS,
};
use ordo::platform::observer::{attach_new, window_created};
use ordo::platform::rescue_gather::{gather, target_display, Gathered};
use ordo::platform::restack_worker::{
    mark_ghost_pass, ordered, worth_watching, GhostWatch, RestackSlot,
};
use ordo::platform::skylight::{
    fold_topology, home_space, managed_display_spaces, resolve_monitor_id, space_id, DisplaySpaces,
    RawDisplay as RawSpaces,
};
use ordo::platform::world::{cost, frames_of, slowest, snapshot};
use ordo::platform::ws_events::WaitOutcome;
use ordo::platform::zorder::{stack_front_to_back, Reassert, ReassertStep, RestackLog};
use ordo::ports::{RaiseKind, RaiseStat, RestackStats};
use ordo::vocab::{
    AxHintKind, Effect, MonitorId, OpId, OpOutcome, Pid, Point, Rect, RescanTrigger,
    VirtualMonitorId, WindowId, WorkspaceId,
};

fn spaces(name: &str, parsed: Option<u128>, current: u64, list: &[u64]) -> DisplaySpaces {
    DisplaySpaces {
        identifier: name.to_string(),
        parsed: parsed.map(MonitorId),
        current_space: current,
        spaces: list.to_vec(),
    }
}

fn two_displays() -> (Vec<DisplaySpaces>, Vec<(MonitorId, bool)>) {
    (
        vec![spaces("MAIN", None, 12, &[11, 12, 13]), spaces("uuid", Some(2), 21, &[21, 22])],
        vec![(MonitorId(1), true), (MonitorId(2), false)],
    )
}

#[test]
fn spaces_are_read_with_what_is_missing_passed_over() {
    let raw = vec![RawSpaces {
        identifier: None,
        parsed: None,
        current: Some((None, Some(5))),
        spaces: vec![Some((Some(4), Some(9))), None, Some((None, Some(5))), Some((None, None))],
    }];
    let read = managed_display_spaces(raw);
    assert_eq!((read[0].identifier.as_str(), read[0].current_space), ("", 5));
    assert_eq!(read[0].spaces, [4, 5]);
    assert_eq!(space_id(None), None);
    assert_eq!(home_space(None, Some(-1)), Some(u64::MAX));
}

#[test]
fn identifiers_resolve_to_displays_that_are_there() {
    let (_, known) = two_displays();
    assert_eq!(resolve_monitor_id("Main", None, &known), Some(MonitorId(1)));
    assert_eq!(resolve_monitor_id("x", Some(MonitorId(2)), &known), Some(MonitorId(2)));
    assert_eq!(resolve_monitor_id("x", Some(MonitorId(9)), &known), None);
    let one = vec![(MonitorId(7), false)];
    assert_eq!(resolve_monitor_id("x", Some(MonitorId(9)), &one), Some(MonitorId(7)));
    assert_eq!(resolve_monitor_id("main", None, &one), None);
}

#[test]
fn spaces_fold_into_ordinals() {
    let (displays, known) = two_displays();
    let t = fold_topology(&displays, &known);
    assert_eq!(
        t.per_monitor,
        [
            MonitorWorkspace { monitor: MonitorId(1), active: WorkspaceId(2), count: 3 },
            MonitorWorkspace { monitor: MonitorId(2), active: WorkspaceId(1), count: 2 },
        ]
    );
    assert_eq!(t.space_to_ordinal.get(&13), Some(&WorkspaceId(3)));
    assert_eq!(t.space_to_ordinal.get(&22), Some(&WorkspaceId(2)));
    let windows = vec![WindowId(1), WindowId(2), WindowId(3), WindowId(4)];
    let homes = vec![Some(13), None, Some(99)];
    let topo = topology(&displays, &known, &windows, &homes);
    assert_eq!(topo.window_ws.len(), 1);
    assert_eq!(topo.window_ws.get(&1), Some(&WorkspaceId(3)));
    assert!(topo.virtual_monitors.is_none());

    let many: Vec<u64> = (0..300).collect();
    let big = fold_topology(&vec![spaces("main", None, 299, &many)], &vec![(MonitorId(1), true)]);
    assert_eq!(big.per_monitor[0].count, 255);
    assert_eq!(big.space_to_ordinal.get(&255), Some(&WorkspaceId(255)));
    assert_eq!(big.space_to_ordinal.get(&256), Some(&WorkspaceId(1)));
    let none = fold_topology(&vec![spaces("main", None, 1, &[])], &vec![(MonitorId(1), true)]);
    assert_eq!((none.per_monitor[0].active, none.per_monitor[0].count), (WorkspaceId(1), 1));
}

#[test]
fn every_display_is_driven_by_its_own_distance() {
    let (displays, known) = two_displays();
    assert_eq!(
        drive_all_displays(WorkspaceId(1), &displays, &known).unwrap(),
        [Drive { display: 0, direction: -1, presses: 1 }]
    );
    // The second display has no third space and is left alone.
    assert_eq!(
        drive_all_displays(WorkspaceId(3), &displays, &known).unwrap(),
        [Drive { display: 0, direction: 1, presses: 1 }]
    );
    let err = drive_all_displays(WorkspaceId(0), &displays, &known).unwrap_err();
    assert_eq!(err.text(), "workspace ordinals are 1-based");
    assert!(!arrived(&displays, WorkspaceId(2)));
    let (mut there, _) = two_displays();
    there[1].current_space = 22;
    assert!(arrived(&there, WorkspaceId(2)));
    assert!(!arrived(&vec![], WorkspaceId(1)));
    assert!(capabilities().fixed_workspace_count && capabilities().max_workspaces == 16);
}

#[test]
fn a_switch_is_driven_twice_before_it_is_given_up() {
    let mut s = Switching::start(WorkspaceId(4));
    assert!(matches!(s.driven(Ok(())), SwitchStep::Look));
    for _ in 0..POLLS - 1 {
        assert!(matches!(s.looked(false), SwitchStep::WaitAndLook));
    }
    assert!(matches!(s.looked(false), SwitchStep::WaitAndDrive));
    assert!(matches!(s.driven(Ok(())), SwitchStep::Look));
    for _ in 0..POLLS - 1 {
        s.looked(false);
    }
    match s.looked(false) {
        SwitchStep::WaitAndGiveUp(e) => assert_eq!(
            e.text(),
            "workspace 4 not reached after retry (are Mission Control's \"Move left/right a space\" shortcuts enabled and bound to Ctrl+Alt+Cmd+arrows?)"
        ),
        other => panic!("{other:?}"),
    }
    assert!(matches!(s.looked(true), SwitchStep::Finish(Ok(()))));
    let failed = s.driven(Err(BackendError("no".to_string())));
    assert!(matches!(failed, SwitchStep::Finish(Err(e)) if e.text() == "no"));
}

#[test]
fn a_window_moves_within_its_display_and_is_verified() {
    let (displays, _) = two_displays();
    let w = WindowId(5);
    assert_eq!(plan_move(w, WorkspaceId(2), Some(21), &displays).unwrap(), 22);
    let err = plan_move(w, WorkspaceId(3), Some(21), &displays).unwrap_err();
    assert_eq!(err.text(), "no space 3 on window 5's display");
    assert!(plan_move(w, WorkspaceId(1), None, &displays).is_err());
    assert!(verify_move(22, Some(22)).is_ok());
    let err = verify_move(22, Some(21)).unwrap_err();
    assert!(err.text().starts_with("window did not move"));
    assert_eq!(rescue_window(w, Some(13), &displays).unwrap(), 12);
    assert_eq!(rescue_window(w, Some(99), &displays).unwrap_err().text(), "window 5 not located");
}

#[test]
fn the_emulated_backend_shows_one_workspace_everywhere() {
    let view = VirtualMonitors { count: 1, viewed: VirtualMonitorId(1), enabled: true };
    let t = emulated_backend::topology(
        &vec![MonitorId(1), MonitorId(2)],
        WorkspaceId(3),
        9,
        HashMap::from([(4, WorkspaceId(2))]),
        (view, HashMap::new()),
    );
    assert!(t.monitors.iter().all(|m| m.active == WorkspaceId(3) && m.count == 9));
    assert_eq!(t.window_ws.get(&4), Some(&WorkspaceId(2)));
    assert_eq!(emulated_backend::out_of_range(WorkspaceId(12)).text(), "workspace 12 out of range");
    assert_eq!(no_virtual_monitors().text(), "this backend has no virtual monitors");
    let ids = vec![WindowId(1), WindowId(2), WindowId(3)];
    let all = vec![WindowId(3), WindowId(1)];
    assert_eq!(emulated_backend::existing_windows(&ids, &all), [WindowId(1), WindowId(3)]);
    let holds = vec![(Pid(1), 4), (Pid(2), 5)];
    assert_eq!(emulated_backend::held_by(&holds, Pid(2)), 5);
    assert_eq!(emulated_backend::held_by(&holds, Pid(3)), 0);
    assert_eq!(
        emulated_backend::escape_notice(Pid(7), 2, 250).unwrap(),
        "ordo: un-hiding pid 7 left 2 window(s) off the corner after 250ms"
    );
    assert!(emulated_backend::escape_notice(Pid(7), 0, 250).is_none());
    assert!(!emulated_backend::capabilities(9).fixed_workspace_count);
}

fn rect(x: u64) -> Rect {
    Rect { x, y: 0, w: 10, h: 10 }
}

#[test]
fn a_mirror_set_counts_once() {
    let raw = |mirrors: bool, uuid: Option<u128>, x: u64, is_main: bool| RawDisplay {
        mirrors,
        uuid,
        frame: rect(x),
        is_main,
    };
    let got = active_displays(&vec![
        raw(false, Some(1), 0, false),
        raw(true, Some(2), 5, false),
        raw(false, None, 6, false),
        raw(false, Some(3), 0, true),
        raw(false, Some(4), 9, false),
    ]);
    let ids: Vec<(u128, bool)> = got.iter().map(|d| (d.id.0, d.is_main)).collect();
    assert_eq!(ids, [(1, true), (4, false)]);
    let mut bytes = [0u8; 16];
    bytes[0] = 0x80;
    bytes[15] = 7;
    assert_eq!(display_uuid(&bytes), MonitorId(u128::from_be_bytes(bytes)));
}

#[test]
fn one_look_is_posted_once_displays_have_settled() {
    let mut settle = DisplaySettle::new();
    let mut poster = Poster::new();
    assert!(!settle.settling(clock_ms(0)) && !poster.due(&settle, clock_ms(0)));
    settle.stamp(clock_ms(0));
    assert!(settle.settling(SETTLE_MS) && !poster.due(&settle, SETTLE_MS));
    settle.stamp(50);
    assert!(!settle.settling(50 + SETTLE_MS));
    assert!(poster.due(&settle, 50 + SETTLE_MS));
    assert!(!poster.due(&settle, 60 + SETTLE_MS));
}

#[test]
fn a_change_is_seen_wherever_the_record_is_shared() {
    let stamped = Arc::new(Mutex::new(DisplaySettle::default()));
    let read = stamped.clone();
    assert_eq!(read.lock().unwrap().last(), 0);
    stamped.lock().unwrap().stamp(clock_ms(0));
    assert_eq!(read.lock().unwrap().last(), 1, "never the value that means never");
    assert!(read.lock().unwrap().settling(SETTLE_MS));
    assert!(!read.lock().unwrap().settling(1 + SETTLE_MS));
    // Another change starts the second anew.
    stamped.lock().unwrap().stamp(clock_ms(700));
    assert!(read.lock().unwrap().settling(700 + SETTLE_MS));
    assert!(!read.lock().unwrap().settling(701 + SETTLE_MS));
}

#[test]
fn the_two_zeros_are_one_place() {
    let zero = |x: f64| Rect { x: x.to_bits(), ..rect(0) };
    assert!(zero(0.0).same(zero(-0.0)) && zero(-0.0).same(zero(-0.0)));
    assert!(!zero(1.0).same(zero(-1.0)));
    let at = |x: f64| Point { x: x.to_bits(), y: 2 };
    assert!(at(-0.0).same(at(0.0)) && !at(0.0).same(at(0.5)));
    let raw = |uuid, x: f64| RawDisplay { mirrors: false, uuid: Some(uuid), frame: zero(x), is_main: false };
    assert_eq!(active_displays(&vec![raw(1, 0.0), raw(2, -0.0), raw(3, 5.0)]).len(), 2);
}

#[test]
fn a_swipe_begins_continues_and_ends() {
    assert_eq!(
        swipe(1),
        [
            SwipeEvent { phase: 1, progress: 0, velocity: 0 },
            SwipeEvent { phase: 0, progress: -1, velocity: -9999 },
            SwipeEvent { phase: 4, progress: -1, velocity: -9999 },
        ]
    );
    assert_eq!(swipe(-1)[2], SwipeEvent { phase: 4, progress: 1, velocity: 9999 });
    assert_eq!(post(swipe(0)[0]), [(55, 30), (110, 23), (123, 1), (132, 1)]);
    assert_eq!(post(swipe(0)[1]), [(55, 30), (110, 23), (123, 1)]);
}

#[test]
fn presses_are_kept_apart() {
    assert_eq!(switch(1, 2), [Pull::Press(0x7C), Pull::Gap, Pull::Press(0x7C)]);
    assert_eq!(switch(-1, 1), [Pull::Press(0x7B)]);
    assert!(switch(1, 0).is_empty());
}

#[test]
fn windows_need_a_number_a_place_and_a_size() {
    assert_eq!(window_id(0, 5), Some(WindowId(5)));
    assert_eq!(window_id(0, 0), None);
    assert_eq!(window_id(-1, 5), None);
    assert!(asks_app(true, 1) && !asks_app(true, 0) && !asks_app(false, 1));
    let p = Some(Point { x: 1, y: 2 });
    let w = read_window(Some(WindowId(5)), Pid(9), None, p, Some((3, 4)), None, None).unwrap();
    assert_eq!((w.title.as_str(), w.frame), ("", Rect { x: 1, y: 2, w: 3, h: 4 }));
    assert!(read_window(Some(WindowId(5)), Pid(9), None, None, Some((3, 4)), None, None).is_none());
    assert!(read_window(Some(WindowId(5)), Pid(9), None, p, None, None, None).is_none());
}

#[test]
fn the_key_record_is_the_one_the_system_expects() {
    let bytes = make_key_window(0x1234_5678, 2);
    assert_eq!(bytes.len(), 0xf8);
    assert_eq!((bytes[0x04], bytes[0x08], bytes[0x3a]), (0xf8, 2, 0x10));
    assert_eq!(bytes[0x3c..0x40], [0x78, 0x56, 0x34, 0x12]);
    assert!(bytes[0x20..0x30].iter().all(|b| *b == 0xff));
    assert_eq!(bytes.iter().filter(|b| **b != 0).count(), 3 + 4 + 16);
}

#[test]
fn moves_are_grouped_by_app() {
    let at = |n: u64| Point { x: n, y: n };
    let groups = move_windows(&vec![
        (Pid(1), WindowId(10), at(1)),
        (Pid(2), WindowId(20), at(2)),
        (Pid(1), WindowId(11), at(3)),
    ]);
    assert_eq!(groups.len(), 2);
    assert_eq!(groups[0], (Pid(1), vec![(WindowId(10), at(1)), (WindowId(11), at(3))]));
    assert_eq!(groups[1].0, Pid(2));
    assert_eq!(move_target(&groups[0].1, WindowId(11)), Some(at(3)));
    assert_eq!(move_target(&groups[0].1, WindowId(20)), None);
}

#[test]
fn a_hold_chases_until_the_window_server_agrees() {
    let at = |n: u64| Point { x: n, y: n };
    let mut hold = Hold::new(Pid(1), vec![(WindowId(1), at(1)), (WindowId(2), at(2)), (WindowId(3), at(3))]);
    hold.resolve(&vec![Some(WindowId(2)), None, Some(WindowId(9)), Some(WindowId(1))]);
    assert_eq!(
        hold.chase,
        [
            Chased { window: WindowId(2), at: at(2), element: 0 },
            Chased { window: WindowId(1), at: at(1), element: 3 },
        ]
    );
    assert_eq!(hold.looked(&vec![false, false], false), ChaseStep::Write);
    // Window 1 refused the write: it is gone.
    hold.wrote(&vec![true, false]);
    assert_eq!((hold.writes, hold.chase.len()), (2, 1));
    assert_eq!(hold.looked(&vec![true], false), ChaseStep::Over);
    // Window 3 was never found, and counts as escaped all the same.
    let outcome = hold.finish(&vec![true, true, false], 40);
    assert_eq!(outcome.escaped, [WindowId(3)]);
    assert_eq!((outcome.writes, outcome.elapsed_ms), (2, 40));
    let mut slow = Hold::new(Pid(1), vec![(WindowId(1), at(1))]);
    slow.resolve(&vec![Some(WindowId(1))]);
    assert_eq!(slow.looked(&vec![false], true), ChaseStep::Over);
}

#[test]
fn raises_follow_the_targets() {
    let elements = vec![Some(WindowId(1)), Some(WindowId(2)), None, Some(WindowId(1))];
    assert_eq!(
        raise_sequenced(&vec![WindowId(2), WindowId(7), WindowId(1)], &elements),
        [(WindowId(2), 1), (WindowId(1), 3)]
    );
}

#[test]
fn an_order_is_raised_back_to_front_until_it_is_read_back() {
    let ids = |v: &[u32]| v.iter().map(|w| WindowId(*w)).collect::<Vec<_>>();
    assert_eq!(
        stack_front_to_back(&vec![(Some(0), Some(4)), (Some(25), Some(5)), (None, Some(6)), (Some(0), None), (Some(0), Some(7))]),
        ids(&[4, 7])
    );
    let mut r = Reassert::new(&ids(&[1, 2, 3, 4]), Some(WindowId(1)));
    assert!(matches!(r.step(), ReassertStep::Raise { back_to_front, wait_ms: 30 } if back_to_front == ids(&[4, 3, 2])));
    assert!(matches!(r.read_back(&ids(&[1, 3, 2, 4])), ReassertStep::Raise { wait_ms: 120, .. }));
    assert!(matches!(r.read_back(&ids(&[1, 3, 2, 4])), ReassertStep::Raise { wait_ms: 210, .. }));
    // What stands between the wanted windows does not matter.
    assert!(matches!(r.read_back(&ids(&[9, 2, 1, 3, 8, 4])), ReassertStep::Done(true)));
    // A newer order ends it, whatever the stack.
    assert!(matches!(r.raised(true, &ids(&[2, 3, 4])), ReassertStep::Yield));
    assert!(matches!(r.raised(false, &ids(&[2, 3, 4])), ReassertStep::Done(true)));
    let mut stuck = Reassert::new(&ids(&[1, 2]), None);
    for _ in 0..2 {
        stuck.read_back(&ids(&[2, 1]));
    }
    assert!(matches!(stuck.read_back(&ids(&[2, 1])), ReassertStep::Done(false)));
    assert!(matches!(Reassert::new(&ids(&[1, 2]), Some(WindowId(1))).step(), ReassertStep::Done(true)));
}

fn stats(converged: bool, aborted: bool, raised: bool) -> RestackStats {
    RestackStats {
        total_ms: 0,
        presence_wait_ms: 0,
        handoff_wait_ms: 0,
        desired: 0,
        missing: 0,
        skipped_suffix: 0,
        second_pass: false,
        converged,
        aborted,
        ghost_pass: false,
        raises: if raised {
            vec![RaiseStat {
                window: WindowId(1),
                pid: 1,
                kind: RaiseKind::Top,
                pass: 0,
                above_scope: 0,
                above_all: 0,
                wait_ms: 0,
                timed_out: false,
                via_event: false,
            }]
        } else {
            vec![]
        },
    }
}

#[test]
fn only_the_latest_order_counts_and_a_watch_reruns_once_at_most() {
    let mut slot = RestackSlot::new();
    assert!(slot.take().is_none());
    slot.submit(vec![WindowId(1)]);
    slot.submit(vec![WindowId(2)]);
    let (generation, order) = slot.take().unwrap();
    assert_eq!((generation, order.clone()), (2, vec![WindowId(2)]));
    assert!(!slot.superseded(2) && ordered(&order, 2) && !ordered(&order, 1));
    slot.submit(vec![]);
    assert!(slot.superseded(2));

    assert!(worth_watching(&Some(stats(true, false, true))));
    for no in [stats(false, false, true), stats(true, true, true), stats(true, false, false)] {
        assert!(!worth_watching(&Some(no)));
    }
    assert!(!worth_watching(&None));
    assert!(mark_ghost_pass(stats(true, false, true)).ghost_pass);
    let mut watch = GhostWatch::new();
    assert!(watch.listening() && watch.heard(WaitOutcome::Hint));
    assert!(!watch.listening());
    let mut quiet = GhostWatch::new();
    assert!(!quiet.heard(WaitOutcome::Timeout) && !quiet.listening());
    assert_eq!(
        [RaiseKind::Background.as_str(), RaiseKind::Sibling.as_str(), RaiseKind::Top.as_str()],
        ["background", "sibling", "top"]
    );
}

#[test]
fn apps_are_attached_to_once() {
    let mut attached = vec![3];
    let running = vec![(true, 1), (false, 2), (true, 3), (true, -4), (true, 1), (true, 5)];
    assert_eq!(attach_new(&running, &mut attached), [1, 5]);
    assert_eq!(attached, [3, 1, 5]);
    assert!(attach_new(&running, &mut attached).is_empty());
    let created = |m: Msg| match m {
        Msg::Rescan(RescanTrigger::AxHint { pid, kind: AxHintKind::WindowCreated }) => pid,
        other => panic!("{other:?}"),
    };
    assert_eq!(created(window_created(true, 8)), Some(Pid(8)));
    assert_eq!(created(window_created(false, 8)), None);
    assert_eq!(created(window_created(true, 0)), None);
}

#[test]
fn displaced_windows_are_gathered_in_a_cascade() {
    let seen = vec![(WindowId(1), false), (WindowId(2), true), (WindowId(3), false), (WindowId(4), false)];
    assert_eq!(
        gather(&vec![WindowId(4), WindowId(9)], &seen),
        [Gathered { window: 1, cascade: 0 }, Gathered { window: 3, cascade: 1 }]
    );
    assert_eq!(target_display(&vec![false, true]), Some(1));
    assert_eq!(target_display(&vec![false, false]), Some(0));
    assert_eq!(target_display(&vec![]), None);
}

#[test]
fn effects_become_acts_and_answers_become_outcomes() {
    let op = OpId(1);
    assert!(matches!(
        execute(&Effect::FocusWindow { op, window: WindowId(2) }),
        Act::Focus(WindowId(2))
    ));
    assert!(matches!(
        execute(&Effect::RestackWindows { order: vec![WindowId(2)] }),
        Act::Restack(o) if o == [WindowId(2)]
    ));
    assert!(matches!(
        execute(&Effect::RequestRescan { reason: RescanTrigger::Startup }),
        Act::Nothing
    ));
    assert_eq!(found_outcome(true, FOCUS_NOT_FOUND), OpOutcome::Done);
    assert_eq!(
        found_outcome(false, FOCUS_NOT_FOUND),
        OpOutcome::Failed { detail: "focus: window not found".to_string() }
    );
    assert_eq!(
        result_outcome(Err(BackendError("x".to_string()))),
        OpOutcome::Failed { detail: "x".to_string() }
    );
    assert_eq!(result_outcome(Ok(())), OpOutcome::Done);
}

#[test]
fn an_observation_tells_what_is_believed_over_what_is_seen() {
    let window = |id: u32, x: u64| AxWindow {
        id: WindowId(id),
        app: Pid(1),
        bundle_id: None,
        title: "t".to_string(),
        frame: rect(x),
        subrole: None,
    };
    let displays = || active_displays(&vec![RawDisplay { mirrors: false, uuid: Some(1), frame: rect(0), is_main: true }]);
    let believed = HashMap::from([(2, rect(77))]);
    let s = snapshot(displays(), false, vec![window(1, 5), window(2, 6)], Some(WindowId(1)), None, &believed);
    assert_eq!((s.windows[0].frame, s.windows[1].frame), (rect(5), rect(77)));
    assert_eq!((s.monitors.len(), s.focused), (1, Some(WindowId(1))));
    assert!(s.workspaces.assignments.is_empty() && s.workspaces.monitors.is_empty());
    assert!(snapshot(displays(), true, vec![], None, None, &believed).monitors.is_empty());
}

#[test]
fn a_run_starts_and_turns_as_it_was_told() {
    assert_eq!(backend_label(Backend::Native, true), "native(observe)");
    assert_eq!(backend_label(Backend::Emulated, false), "emulated");
    let paused = start(false, true);
    assert!(paused.listens && !paused.intercepting && matches!(paused.first, Some(Msg::Rescue)));
    let observing = start(true, false);
    assert!(!observing.listens && !observing.intercepting && observing.first.is_none());
    assert!(start(false, false).intercepting);
    assert_eq!(banner(true, false, "/x").len(), 3);
    assert_eq!(banner(false, true, "/x")[0], "ordo: paused (disengaged). Logging to /x");
    assert!(matches!(turn(true, true), Turn::Stop));
    assert!(matches!(
        turn(false, true),
        Turn::Go { disengage: true, messages } if matches!(messages[..], [Msg::Rescue, Msg::Rescan(_)])
    ));
    assert!(matches!(turn(false, false), Turn::Go { disengage: false, messages } if messages.len() == 1));
    assert_eq!(pid_path(Some("/a")), "/a/ordo.pid");
    assert_eq!(pid_path(None), "./ordo.pid");
    for (written, pid) in [
        ("77", Some(77)),
        (" \t77\n", Some(77)),
        ("+0012", Some(12)),
        ("-5", Some(-5)),
        ("2147483647", Some(i32::MAX)),
        ("-2147483648", Some(i32::MIN)),
        ("2147483648", None),
        ("-2147483649", None),
        ("99999999999999999999999999", None),
        ("", None),
        ("  ", None),
        ("-", None),
        ("7 7", None),
        ("7x", None),
        ("--7", None),
    ] {
        assert_eq!(pid_in(written), pid, "{written:?}");
        assert_eq!(pid_in(written), written.trim().parse().ok(), "{written:?}");
    }
    assert_eq!(choose_run(None, Some(4)), Some(4));
    assert_eq!(choose_run(Some(2), Some(4)), Some(2));
}

#[test]
fn raises_stop_at_the_first_refusal() {
    let targets = vec![WindowId(1), WindowId(2), WindowId(3)];
    let elements = vec![Some(WindowId(3)), None, Some(WindowId(1)), Some(WindowId(2))];
    let order = raise_sequenced(&targets, &elements);
    assert_eq!(order, [(WindowId(1), 2), (WindowId(2), 3), (WindowId(3), 0)]);
    let issue = |answers: &[bool]| {
        let mut raising = Raising::start(&targets, &elements);
        let mut issued = Vec::new();
        let mut answers = answers.iter();
        let mut go_on = true;
        while let Some(raise) = raising.next_raise(go_on) {
            issued.push(raise);
            go_on = *answers.next().unwrap();
        }
        assert!(raising.next_raise(true).is_none(), "over is over");
        issued
    };
    assert_eq!(issue(&[true, true, true]), order);
    assert_eq!(issue(&[true, false, true]), order[..2]);
    assert_eq!(issue(&[false, true, true]), order[..1]);
}

#[test]
fn a_restack_accounts_for_its_raises() {
    let ids = |n: &[u32]| n.iter().map(|w| WindowId(*w)).collect::<Vec<_>>();
    let mut log = RestackLog::new(3);
    log.begin_pass(ids(&[9, 1, 8, 2, 3]), ids(&[3, 2, 1]));
    log.raised(WindowId(3), 100);
    log.raised(WindowId(2), 200);
    log.raised(WindowId(1), 100);
    log.begin_pass(ids(&[1, 2, 3]), ids(&[2, 7]));
    log.raised(WindowId(7), 100);
    let stats = log.finish(12, ReassertStep::Done(true)).unwrap();
    let got: Vec<(u32, RaiseKind, u8, u32, u32)> = stats
        .raises
        .iter()
        .map(|r| (r.window.0, r.kind, r.pass, r.above_scope, r.above_all))
        .collect();
    assert_eq!(
        got,
        [
            (3, RaiseKind::Background, 1, 2, 4),
            (2, RaiseKind::Background, 1, 1, 3),
            (1, RaiseKind::Sibling, 1, 0, 1),
            (7, RaiseKind::Background, 2, 1, 3),
        ]
    );
    assert_eq!((stats.total_ms, stats.desired), (12, 3));
    assert!(stats.second_pass && stats.converged && !stats.aborted);

    assert!(RestackLog::new(3).finish(1, ReassertStep::Done(true)).is_none(), "nothing was raised");
    let yielded = RestackLog::new(3).finish(1, ReassertStep::Yield).unwrap();
    assert!(yielded.aborted && !yielded.converged && !yielded.second_pass);
}

#[test]
fn an_observation_knows_its_slowest_app_and_where_windows_are() {
    let times = vec![(Pid(1), 5), (Pid(2), 9), (Pid(3), 9)];
    assert_eq!(slowest(&times), Some((Pid(2), 9)));
    assert_eq!(slowest(&vec![]), None);
    let s = cost(30, 20, 7, &times, 4);
    assert_eq!((s.total, s.walk, s.enforce, s.apps, s.windows), (30, 20, 7, 3, 4));
    assert_eq!(s.slowest, Some((Pid(2), 9)));

    let window = |id: u32, pid: i32, x: u64| AxWindow {
        id: WindowId(id),
        app: Pid(pid),
        bundle_id: None,
        title: String::new(),
        frame: rect(x),
        subrole: None,
    };
    let frames = frames_of(&vec![window(1, 10, 5), window(2, 20, 6), window(1, 10, 7)]);
    assert_eq!(frames, HashMap::from([(1, (Pid(10), rect(7))), (2, (Pid(20), rect(6)))]));
}
