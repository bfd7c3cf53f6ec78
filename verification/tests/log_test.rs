//! The rows of the log, its replay, and what rescue reads out of it.

use ordo::cli::{exit_code, report_lines};
use ordo::clock::{stamp, stamp_spans, Clock, SystemClock};
use ordo::engine::Event;
use ordo::logger::{default_db_path, Logger, HotkeyBatch};
use ordo::ports::{RaiseKind, RaiseStat, RestackStats, SnapshotStats};
use ordo::replay::{load_checkpoint, logged_effects, replay, LoggedStep, ReplayReport, Resume};
use ordo::rescue::{touched_windows, window_id_of, window_in};
use ordo::statefile::{boot_time_sec, load, PersistedState, PersistedWindow, VERSION};
use ordo::vocab::{
    Effect, HotkeyAction, Note, OpId, OpOutcome, Pid, Point, Rect, RescanTrigger, Ts, WindowId,
    WorkspaceId,
};

fn at(n: u64) -> Ts {
    Ts { wall_ms: n as i64 + 1_000, mono_ns: n }
}

fn next(n: u64) -> Event<()> {
    Event::Hotkey { at: at(n), action: HotkeyAction::WorkspaceNext }
}

#[test]
fn a_step_leaves_one_event_its_effects_and_its_notes() {
    let mut log = Logger::begin(7);
    let effects = vec![
        Effect::SwitchWorkspace { op: OpId(5), target: WorkspaceId(2) },
        Effect::WarpMouse { to: Point { x: 1, y: 2 } },
    ];
    let notes = vec![Note::GestureClassified, Note::TearPersisting];
    let rows = log.log_step(
        &next(9),
        "e".to_string(),
        &effects,
        vec!["a".to_string(), "b".to_string()],
        &notes,
        vec!["c".to_string(), "d".to_string()],
        None,
    );
    assert_eq!((rows.run_id, rows.event.seq, rows.event.kind), (7, 0, "hotkey"));
    assert_eq!((rows.event.wall_ms, rows.event.mono_ns), (1_009, 9));
    assert_eq!(rows.event.payload, "e");
    let got: Vec<(i64, Option<i64>, &str, &str)> =
        rows.effects.iter().map(|e| (e.ord, e.op_id, e.kind, e.payload.as_str())).collect();
    assert_eq!(got, [(0, Some(5), "switch_workspace", "a"), (1, None, "warp_mouse", "b")]);
    let got: Vec<(i64, &str, &str)> =
        rows.notes.iter().map(|n| (n.ord, n.kind, n.payload.as_str())).collect();
    assert_eq!(got, [(0, "gesture_classified", "c"), (1, "tear_persisting", "d")]);
    assert!(rows.checkpoint, "the first step is a checkpoint");
    assert_eq!(log.next_seq(), 1);
}

#[test]
fn checkpoints_come_every_two_hundred_steps() {
    let mut log = Logger::begin(1);
    let mut at_seq = Vec::new();
    for n in 0..401u64 {
        let rows = log.log_step(&next(n), String::new(), &vec![], vec![], &vec![], vec![], None);
        if rows.checkpoint {
            at_seq.push(rows.event.seq);
        }
    }
    assert_eq!(at_seq, [0, 200, 400]);
}

#[test]
fn results_and_telemetry_become_rows() {
    let log = Logger::begin(3);
    let row = log.log_op_result(OpId(8), OpOutcome::Failed { detail: "no".to_string() }, 5);
    assert_eq!((row.run_id, row.op_id, row.wall_ms, row.outcome), (3, 8, 5, "failed"));
    assert_eq!(row.detail.as_deref(), Some("no"));
    assert_eq!(log.log_op_result(OpId(8), OpOutcome::Done, 5).outcome, "ok");
    assert_eq!(log.log_op_result(OpId(8), OpOutcome::Timeout, 5).outcome, "timeout");

    let stats = RestackStats {
        total_ms: 12,
        presence_wait_ms: 3,
        handoff_wait_ms: 4,
        desired: 2,
        missing: 0,
        skipped_suffix: 1,
        second_pass: false,
        converged: true,
        aborted: false,
        ghost_pass: true,
        raises: vec![RaiseStat {
            window: WindowId(6),
            pid: 100,
            kind: RaiseKind::Sibling,
            pass: 1,
            above_scope: 2,
            above_all: 9,
            wait_ms: 7,
            timed_out: false,
            via_event: true,
        }],
    };
    let rows = log.log_restack_stats(&stats, 99);
    assert_eq!((rows.total_ms, rows.converged, rows.ghost_pass), (12, true, true));
    assert_eq!((rows.raises[0].ord, rows.raises[0].window, rows.raises[0].kind), (0, 6, "sibling"));

    let parked = log.log_park_trace(
        vec![(WindowId(4), "Parked".to_string(), "{}".to_string())],
        11,
    );
    assert_eq!((parked[0].window, parked[0].kind.as_str(), parked[0].wall_ms), (4, "Parked", 11));
    assert!(log.log_park_trace(vec![], 11).is_empty());

    let batch = HotkeyBatch {
        first_seq: None,
        presses: 2,
        pumped: 0,
        oldest_wait: 1_999_999,
        newest_wait: 999_999,
    };
    let row = log.log_hotkey_batch(batch, 1);
    assert_eq!((row.seq, row.oldest_wait_ms, row.newest_wait_ms), (None, 1, 0));
    assert_eq!(log.close(77), (3, 77));
}

#[test]
fn a_cost_is_logged_only_beside_an_observation() {
    let stats = SnapshotStats {
        total: 9_000_000,
        walk: 6_000_000,
        enforce: 2_000_000,
        apps: 2,
        windows: 4,
        slowest: Some((Pid(200), 6_000_000)),
    };
    let row = Logger::begin(3).log_snapshot_stats(5, stats, 1);
    assert_eq!((row.seq, row.wall_ms, row.total_ns, row.slowest_pid), (5, 1, 9_000_000, Some(200)));
    assert_eq!((row.walk_ns, row.enforce_ns), (6_000_000, 2_000_000));
    assert_eq!((row.slowest_ns, row.apps, row.windows), (Some(6_000_000), 2, 4));

    let mut log = Logger::begin(3);
    let mut cost = |event: &Event<()>, cost: Option<SnapshotStats>| {
        log.log_step(event, String::new(), &vec![], vec![], &vec![], vec![], cost).cost
    };
    assert!(cost(&next(0), Some(stats)).is_none());
    let seen = Event::WorldObserved { at: at(1), trigger: RescanTrigger::Periodic, snap: () };
    let row = cost(&seen, Some(stats)).unwrap();
    assert_eq!((row.run_id, row.seq, row.wall_ms), (3, 1, 1_001));
    assert!(cost(&seen, None).is_none());
}

#[test]
fn a_cut_off_reaction_is_noted_beside_the_last_step() {
    let mut log = Logger::begin(6);
    assert!(log.log_cascade_cap(3).is_none(), "there is no step yet");
    log.log_step(&next(0), String::new(), &vec![], vec![], &vec![], vec![], None);
    log.log_step(&next(1), String::new(), &vec![], vec![], &vec![], vec![], None);
    let row = log.log_cascade_cap(65).unwrap();
    assert_eq!((row.run_id, row.seq, row.ord), (6, 1, -1));
    assert_eq!((row.kind, row.payload.as_str()), ("cascade_capped", "65"));
}

#[test]
fn the_log_lives_below_home() {
    assert_eq!(
        default_db_path(Some("/Users/me")),
        "/Users/me/Library/Application Support/Ordo/log.db"
    );
    assert_eq!(default_db_path(Some("/")), "/Library/Application Support/Ordo/log.db");
    assert_eq!(default_db_path(Some("")), "Library/Application Support/Ordo/log.db");
    assert_eq!(default_db_path(None), "./Library/Application Support/Ordo/log.db");
}

/// A core that counts: an event switches to the workspace it has counted up to.
fn count_up(state: &u8, event: &u8) -> (u8, Vec<Effect>) {
    let n = state + event;
    (n, vec![Effect::SwitchWorkspace { op: OpId(n as u64), target: WorkspaceId(n) }])
}

fn logged(seq: u64, event: u8, target: u8) -> LoggedStep<u8> {
    LoggedStep {
        seq,
        event: Some(event),
        effects: vec![Some(Effect::SwitchWorkspace {
            op: OpId(target as u64),
            target: WorkspaceId(target),
        })],
    }
}

#[test]
fn steps_that_agree_replay_clean() {
    let steps = vec![logged(0, 1, 1), logged(1, 2, 3), logged(2, 1, 4)];
    let report = replay(9, 0, 0u8, steps, |s: &u8, e: &u8| count_up(s, e));
    assert!(report.is_clean(), "{:?}", report.mismatches);
    assert_eq!((report.run_id, report.events_replayed), (9, 3));
}

#[test]
fn a_resume_point_is_after_the_newest_checkpoint_reached() {
    let resume = load_checkpoint(&vec![0, 200], Some(0));
    assert_eq!(resume, Resume { checkpoint: Some(0), start: 1 });
    // The checkpoint at 0 holds the state after event 0.
    let rest = vec![logged(1, 2, 3), logged(2, 1, 4)];
    let report = replay(9, resume.start, 1u8, rest, |s: &u8, e: &u8| count_up(s, e));
    assert!(report.is_clean());
    assert_eq!((report.from_seq, report.events_replayed), (1, 2));

    assert_eq!(load_checkpoint(&vec![0, 200], None), Resume { checkpoint: None, start: 0 });
    assert_eq!(load_checkpoint(&vec![0, 400, 200], Some(399)), Resume { checkpoint: Some(200), start: 201 });
    assert_eq!(load_checkpoint(&vec![200], Some(199)), Resume { checkpoint: None, start: 0 });
}

#[test]
fn a_divergence_is_pinned_to_its_event_and_corrupt_rows_are_passed_over() {
    let corrupt = LoggedStep { seq: 1, event: None, effects: vec![] };
    let steps = vec![logged(0, 1, 1), corrupt, logged(2, 2, 9), logged(3, 1, 4)];
    let report = replay(9, 0, 0u8, steps, |s: &u8, e: &u8| count_up(s, e));
    assert_eq!(report.events_replayed, 3);
    assert_eq!(report.mismatches.len(), 1);
    assert_eq!(report.mismatches[0].seq, 2);
    assert_eq!(
        report.mismatches[0].recomputed,
        [Effect::SwitchWorkspace { op: OpId(3), target: WorkspaceId(3) }]
    );
    assert_eq!(exit_code(&report), 2);
    assert_eq!(
        report_lines(&report),
        [
            "ordo: replayed run 9 (3 events from seq 0)",
            "ordo: 1 divergence(s):",
            "  seq 2: logged 1 effect(s), recomputed 1",
        ]
    );
    let clean = ReplayReport { run_id: -4, from_seq: 2, events_replayed: 10, mismatches: vec![] };
    assert_eq!(exit_code(&clean), 0);
    assert_eq!(
        report_lines(&clean),
        [
            "ordo: replayed run -4 (10 events from seq 2)",
            "ordo: clean — the core reproduced every logged effect.",
        ]
    );
    assert_eq!(
        logged_effects(vec![None, Some(Effect::AddMonitor { op: OpId(1) }), None]),
        [Effect::AddMonitor { op: OpId(1) }]
    );
}

#[test]
fn effects_are_compared_by_everything_they_hold() {
    let order = |ids: &[u32]| Effect::RestackWindows { order: ids.iter().map(|w| WindowId(*w)).collect() };
    assert!(order(&[1, 2]).same(&order(&[1, 2])));
    assert!(!order(&[1, 2]).same(&order(&[2, 1])));
    let look = |k: &str| Effect::RequestRescan { reason: RescanTrigger::BackendHint { kind: k.to_string() } };
    assert!(look("a").same(&look("a")));
    assert!(!look("a").same(&look("b")));
    assert!(!look("a").same(&order(&[])));
    let warp = |x: f64| Effect::WarpMouse { to: Point { x: x.to_bits(), y: 0 } };
    assert!(warp(0.0).same(&warp(-0.0)) && !warp(0.0).same(&warp(1.0)));
}

#[test]
fn rescue_reads_the_windows_out_of_logged_effects() {
    let moved = r#"{"MoveWindowToWorkspace":{"op":3,"window":42,"target":2}}"#;
    assert_eq!(window_id_of(moved), Some(WindowId(42)));
    let framed = r#"{"SetWindowFrame":{"frame":{"x":1.0},"window":7}}"#;
    assert_eq!(window_id_of(framed), Some(WindowId(7)));
    for not_one in [
        "",
        "not json",
        "[1,2]",
        "{}",
        r#"{"A":5}"#,
        r#"{"A":{"op":1}}"#,
        r#"{"A":{"window":"7"}}"#,
        r#"{"A":{"window":-7}}"#,
        r#"{"A":{"window":7.5}}"#,
    ] {
        assert_eq!(window_id_of(not_one), None, "{not_one}");
    }
    // Upper bits are dropped, and the first value in the order of names counts.
    assert_eq!(window_id_of(r#"{"A":{"window":4294967299}}"#), Some(WindowId(3)));
    assert_eq!(window_id_of(r#"{"B":{"window":1},"A":{"window":2}}"#), Some(WindowId(2)));

    let payloads: Vec<String> =
        [framed, moved, "junk", moved].iter().map(|p| p.to_string()).collect();
    assert_eq!(touched_windows(&payloads), [WindowId(7), WindowId(42)]);
}

#[test]
fn a_read_effect_names_its_window() {
    let members = vec![("op".to_string(), Some(1)), ("window".to_string(), Some(9))];
    assert_eq!(window_in(&Some(vec![Some(members), None])), Some(WindowId(9)));
    assert_eq!(window_in(&Some(vec![None])), None);
    assert_eq!(window_in(&Some(vec![])), None);
    assert_eq!(window_in(&None), None);
}

fn sample() -> PersistedState {
    PersistedState {
        version: VERSION,
        boot_time_sec: 1234,
        current: WorkspaceId(2),
        windows: vec![
            PersistedWindow { id: WindowId(7), workspace: WorkspaceId(2), saved: None },
            PersistedWindow {
                id: WindowId(9),
                workspace: WorkspaceId(3),
                saved: Some(Rect {
                    x: 10.0f64.to_bits(),
                    y: 20.0f64.to_bits(),
                    w: 800.0f64.to_bits(),
                    h: 600.0f64.to_bits(),
                }),
            },
        ],
    }
}

#[test]
fn roundtrips_and_rejects_a_stale_boot() {
    assert_eq!(load(sample(), 1234), Some(sample()));
    // Another boot means other window numbers.
    assert_eq!(load(sample(), 1235), None);
    // An unknowable boot time must never validate anything.
    assert_eq!(load(sample(), 0), None);
    let unknown = PersistedState { boot_time_sec: 0, ..sample() };
    assert_eq!(load(unknown, 0), None);
    let newer = PersistedState { version: VERSION + 1, ..sample() };
    assert_eq!(load(newer, 1234), None);
    assert_eq!(boot_time_sec(0, 55), 55);
    assert_eq!(boot_time_sec(-1, 55), 0);
}

#[test]
fn the_clock_reads_both_times() {
    assert_eq!(stamp(Some(5), 6), Ts { wall_ms: 5, mono_ns: 6 });
    assert_eq!(stamp(None, 6).wall_ms, 0);
    assert_eq!(stamp(Some(0), (1u128 << 64) + 2).mono_ns, 2);
    let clock = SystemClock::default();
    let a = clock.now();
    let b = clock.now();
    assert!(a.mono_ns <= b.mono_ns);
    assert!(a.wall_ms > 1_500_000_000_000, "a wall clock set after 2017");
}

#[test]
fn a_span_is_stamped_in_whole_milliseconds_and_in_nanoseconds() {
    let d = std::time::Duration::new(1, 2_999_999);
    assert_eq!(stamp_spans(Ok(d), d), Ts { wall_ms: 1002, mono_ns: 1_002_999_999 });
    let epoch = std::time::UNIX_EPOCH;
    let before = epoch.duration_since(epoch + d);
    assert_eq!(stamp_spans(before, std::time::Duration::ZERO), Ts { wall_ms: 0, mono_ns: 0 });
}
