//! The engine end to end: a scripted desk, a small core, and the rows of the
//! log, replayed.

use std::cell::{Cell, RefCell};
use std::collections::{BTreeMap, VecDeque};
use std::rc::Rc;

use ordo::clock::Clock;
use ordo::engine::{plan_batch, Engine, Event, Msg, Step, MAX_CASCADE};
use ordo::logger::{CapRow, HotkeyBatch, HotkeyBatchRow, Logger, StepRows};
use ordo::ports::{Effector, Journal, NullEffector, RestackStats, SnapshotStats, WorldSource};
use ordo::replay::{load_checkpoint, replay, LoggedStep, ReplayReport};
use ordo::vocab::{
    AxHintKind, Effect, Gesture, HotkeyAction, MonitorId, Note, OpId, OpOutcome, Pid, Point,
    RescanTrigger, Ts, WindowId, WorkspaceId,
};

/// What one look at the desk sees.
#[derive(Clone, Debug, PartialEq)]
struct Snap {
    windows: Vec<WindowId>,
    focused: Option<WindowId>,
    active: BTreeMap<u128, u8>,
}

/// A core that believes what it sees and steps between three workspaces.
#[derive(Clone, Debug, Default, PartialEq)]
struct Model {
    windows: Vec<WindowId>,
    focused: Option<WindowId>,
    monitor_ws: BTreeMap<u128, u8>,
    ops: u64,
}

const COUNT: u8 = 3;

impl Model {
    fn current(&self) -> u8 {
        self.monitor_ws.get(&1).copied().unwrap_or(1)
    }
}

fn update(state: &Model, event: &Event<Snap>) -> Step<Model, Note> {
    let mut next = state.clone();
    let mut effects = Vec::new();
    let mut notes = Vec::new();
    match event {
        Event::WorldObserved { snap, .. } => {
            next.windows = snap.windows.clone();
            next.focused = snap.focused;
            next.monitor_ws = snap.active.clone();
        }
        Event::Hotkey { action, .. } => {
            let target = match action {
                HotkeyAction::WorkspaceNext => state.current() + 1,
                HotkeyAction::WorkspacePrev => state.current() - 1,
                HotkeyAction::WorkspaceSwitchTo(w) => w.0,
                _ => 0,
            };
            if (1..=COUNT).contains(&target) {
                next.ops += 1;
                effects.push(Effect::SwitchWorkspace {
                    op: OpId(next.ops),
                    target: WorkspaceId(target),
                });
                effects.push(Effect::RequestRescan { reason: RescanTrigger::PostEffect });
            }
        }
        Event::Gesture { .. } => notes.push(Note::GestureClassified),
        _ => {}
    }
    Step { state: next, effects, notes }
}

/// A desk that reacts to what is done to it.
struct Desk {
    snap: Snap,
    script: VecDeque<Snap>,
    brought_up: Vec<bool>,
    saved: usize,
}

/// What every look at the desk costs.
const COST: SnapshotStats = SnapshotStats {
    total: 9_000_000,
    walk: 6_000_000,
    enforce: 2_000_000,
    apps: 2,
    windows: 3,
    slowest: Some((Pid(200), 6_000_000)),
};

struct World(Rc<RefCell<Desk>>);

impl WorldSource<Snap> for World {
    fn snapshot(&mut self) -> Snap {
        let mut desk = self.0.borrow_mut();
        if let Some(next) = desk.script.pop_front() {
            desk.snap = next;
        }
        desk.snap.clone()
    }
}

struct Hands(Rc<RefCell<Desk>>);

impl Effector for Hands {
    fn execute(&mut self, effect: &Effect) -> Option<OpOutcome> {
        if let Effect::SwitchWorkspace { target, .. } = effect {
            for ws in self.0.borrow_mut().snap.active.values_mut() {
                *ws = target.0;
            }
        }
        Some(OpOutcome::Done)
    }

    fn bring_up_workspaces(&mut self, use_state: bool) {
        self.0.borrow_mut().brought_up.push(use_state);
    }

    fn persist_workspaces(&mut self) {
        self.0.borrow_mut().saved += 1;
    }
}

struct StepClock {
    n: Cell<u64>,
}

impl Clock for StepClock {
    fn now(&self) -> Ts {
        let n = self.n.get();
        self.n.set(n + 1);
        Ts { wall_ms: 1_000 + 100 * n as i64, mono_ns: 1_000_000_000 + n }
    }
}

/// A log kept in memory.
struct Book {
    logger: Logger,
    steps: Vec<(StepRows, Event<Snap>, Vec<Effect>)>,
    checkpoints: Vec<(u64, Model)>,
    caps: Vec<CapRow>,
    results: Vec<(u64, &'static str)>,
    bursts: Vec<HotkeyBatchRow>,
    restacks: usize,
}

impl Journal<Model, Snap, Note> for Book {
    fn log_step(&mut self, event: &Event<Snap>, effects: &Vec<Effect>, notes: &Vec<Note>, state: &Model) {
        let rows = self.logger.log_step(
            event,
            format!("{event:?}"),
            effects,
            effects.iter().map(|e| format!("{e:?}")).collect(),
            notes,
            notes.iter().map(|n| format!("{n:?}")).collect(),
            Some(COST),
        );
        if rows.checkpoint {
            self.checkpoints.push((rows.event.seq, state.clone()));
        }
        self.steps.push((rows, event.clone(), effects.clone()));
    }

    fn log_op_result(&mut self, op: OpId, outcome: &OpOutcome, now_wall_ms: i64) {
        let row = self.logger.log_op_result(op, outcome.clone(), now_wall_ms);
        self.results.push((op.0, row.outcome));
    }

    fn log_cascade_cap(&mut self, dropped: usize) {
        self.caps.push(self.logger.log_cascade_cap(dropped).unwrap());
    }

    fn next_seq(&self) -> u64 {
        self.logger.next_seq()
    }

    fn log_hotkey_batch(&mut self, batch: HotkeyBatch, now_wall_ms: i64) {
        self.bursts.push(self.logger.log_hotkey_batch(batch, now_wall_ms));
    }

    fn log_restack_stats(&mut self, _stats: &RestackStats, _now_wall_ms: i64) {
        self.restacks += 1;
    }
}

impl Book {
    fn new() -> Book {
        Book {
            logger: Logger::begin(1),
            steps: Vec::new(),
            checkpoints: Vec::new(),
            caps: Vec::new(),
            results: Vec::new(),
            bursts: Vec::new(),
            restacks: 0,
        }
    }

    fn kinds(&self) -> Vec<&'static str> {
        self.steps.iter().map(|s| s.0.event.kind).collect()
    }

    fn switches(&self) -> usize {
        self.steps
            .iter()
            .flat_map(|s| s.0.effects.iter())
            .filter(|e| e.kind == "switch_workspace")
            .count()
    }

    /// Replays the run from the newest checkpoint at or before `from`.
    fn replay(&self, from: Option<u64>) -> ReplayReport {
        let resume = load_checkpoint(&self.checkpoints.iter().map(|c| c.0).collect(), from);
        let state = match resume.checkpoint {
            Some(seq) => self.checkpoints.iter().find(|c| c.0 == seq).unwrap().1.clone(),
            None => Model::default(),
        };
        let steps: Vec<LoggedStep<Event<Snap>>> = self
            .steps
            .iter()
            .filter(|(rows, _, _)| rows.event.seq >= resume.start)
            .map(|(rows, event, effects)| LoggedStep {
                seq: rows.event.seq,
                event: Some(event.clone()),
                effects: effects.iter().cloned().map(Some).collect(),
            })
            .collect();
        replay(1, resume.start, state, steps, |s: &Model, e: &Event<Snap>| {
            let step = update(s, e);
            (step.state, step.effects)
        })
    }

    fn replays_clean(&self) -> bool {
        let report = self.replay(None);
        report.is_clean() && report.events_replayed == self.steps.len()
    }
}

fn snap(focused: Option<u32>, a_ws: u8, b_ws: u8) -> Snap {
    Snap {
        windows: vec![WindowId(1), WindowId(2), WindowId(3)],
        focused: focused.map(WindowId),
        active: [(1, a_ws), (2, b_ws)].into(),
    }
}

fn desk(script: Vec<Snap>) -> Rc<RefCell<Desk>> {
    let mut script: VecDeque<Snap> = script.into();
    let first = script.pop_front().unwrap();
    let mut again = VecDeque::from([first.clone()]);
    again.extend(script);
    Rc::new(RefCell::new(Desk { snap: first, script: again, brought_up: Vec::new(), saved: 0 }))
}

fn whereabouts(s: &Model) -> (Option<WorkspaceId>, u8) {
    (Some(WorkspaceId(s.current())), COUNT)
}

/// Runs the messages as one batch behind a startup look.
fn run(desk: &Rc<RefCell<Desk>>, msgs: Vec<Msg>) -> (Model, Book, bool) {
    let mut engine = Engine::new(
        Model::default(),
        |s: &Model, e: &Event<Snap>| update(s, e),
        World(desk.clone()),
        Hands(desk.clone()),
        StepClock { n: Cell::new(0) },
        Book::new(),
    );
    engine.observe(RescanTrigger::Startup);
    let batch = plan_batch(msgs.into_iter().collect::<VecDeque<Msg>>());
    let go_on = engine.run_batch(batch, &|s: &Model| whereabouts(s));
    (engine.state, engine.journal, go_on)
}

fn press(action: HotkeyAction) -> Msg {
    Msg::Hotkey(action, 0)
}

#[test]
fn observe_mode_logs_the_world_without_emitting_actions() {
    // Boot, then observe once more: the log should hold the events and, since
    // the executor executes nothing, no result of anything.
    let desk = desk(vec![snap(Some(1), 1, 1), snap(Some(2), 1, 1)]);
    let mut engine = Engine::new(
        Model::default(),
        |s: &Model, e: &Event<Snap>| update(s, e),
        World(desk.clone()),
        NullEffector,
        StepClock { n: Cell::new(0) },
        Book::new(),
    );
    engine.observe(RescanTrigger::Startup);
    engine.observe(RescanTrigger::Periodic);

    let s = engine.state();
    assert_eq!(s.windows.len(), 3);
    assert_eq!(s.focused, Some(WindowId(2)));
    // Focus moved 1 -> 2 across the two scans, but observe mode acts on nothing.
    assert_eq!(s.monitor_ws[&MonitorId(1).0], WorkspaceId(1).0);
    engine.pump(Event::Hotkey {
        at: Ts { wall_ms: 2_000, mono_ns: 999 },
        action: HotkeyAction::WorkspaceNext,
    });
    assert_eq!(engine.journal.switches(), 1);
    assert!(engine.journal.results.is_empty(), "nothing was executed");
    assert_eq!(desk.borrow().snap.active[&1], 1);
}

/// Observes each of the scripted looks but the last, then steps to the next
/// workspace.
fn observe_and_step(script: Vec<Snap>) -> Book {
    let looks = script.len() - 1;
    let desk = desk(script);
    let mut engine = Engine::new(
        Model::default(),
        |s: &Model, e: &Event<Snap>| update(s, e),
        World(desk.clone()),
        Hands(desk.clone()),
        StepClock { n: Cell::new(0) },
        Book::new(),
    );
    for i in 0..looks {
        engine.observe(if i == 0 { RescanTrigger::Startup } else { RescanTrigger::Periodic });
    }
    engine.pump(Event::Hotkey {
        at: Ts { wall_ms: 2_000, mono_ns: 999 },
        action: HotkeyAction::WorkspaceNext,
    });
    engine.journal
}

#[test]
fn logged_run_replays_without_divergence() {
    let book = observe_and_step(vec![
        snap(Some(3), 1, 1),
        snap(Some(2), 1, 1),
        snap(Some(1), 1, 1),
        snap(Some(1), 2, 2),
    ]);
    // The session actually did something worth logging.
    assert!(book.steps.len() >= 4);
    assert!(book.switches() >= 1);
    let report = book.replay(None);
    assert!(report.is_clean(), "replay diverged from the log: {:?}", report.mismatches);
    assert!(report.events_replayed >= 4);
}

#[test]
fn replay_from_a_checkpoint_is_clean_and_skips_the_checkpointed_event() {
    let book =
        observe_and_step(vec![snap(Some(3), 1, 1), snap(Some(2), 1, 1), snap(Some(1), 2, 2)]);
    let total = book.steps.len();
    assert_eq!(book.checkpoints.iter().filter(|c| c.0 == 0).count(), 1);

    let full = book.replay(None);
    assert!(full.is_clean(), "full replay diverged: {:?}", full.mismatches);
    assert_eq!(full.events_replayed, total, "full run verified from empty");

    let from_cp = book.replay(Some(0));
    assert!(from_cp.is_clean(), "checkpoint replay diverged: {:?}", from_cp.mismatches);
    // Resumed after event 0, so it verifies one fewer event.
    assert_eq!((from_cp.from_seq, from_cp.events_replayed), (1, total - 1));
}

#[test]
fn each_snapshot_logs_what_it_cost_against_its_own_event() {
    let desk = desk(vec![snap(Some(1), 1, 1)]);
    let (_, book, _) = run(&desk, vec![press(HotkeyAction::WorkspaceNext), Msg::Shutdown]);
    let observed: Vec<i64> = book
        .steps
        .iter()
        .filter(|s| s.0.event.kind == "world_observed")
        .map(|s| s.0.event.seq as i64)
        .collect();
    let costed: Vec<(i64, f64, Option<i32>)> = book
        .steps
        .iter()
        .filter_map(|s| s.0.cost.as_ref())
        .map(|c| (c.seq, c.total_ns as f64 / 1e6, c.slowest_pid))
        .collect();
    assert!(observed.len() >= 2, "the startup scan and the switch's rescan");
    assert_eq!(costed.iter().map(|c| c.0).collect::<Vec<_>>(), observed);
    assert!(costed.iter().all(|c| c.1 == 9.0 && c.2 == Some(200)));
}

#[test]
fn a_runaway_reaction_is_cut_off_and_the_log_says_so() {
    let desk = desk(vec![snap(Some(1), 1, 1)]);
    // A core that looks twice again whenever it has looked.
    let restless = |s: &Model, _e: &Event<Snap>| {
        let look = || Effect::RequestRescan { reason: RescanTrigger::PostEffect };
        Step { state: s.clone(), effects: vec![look(), look()], notes: Vec::<Note>::new() }
    };
    let mut engine = Engine::new(
        Model::default(),
        restless,
        World(desk.clone()),
        Hands(desk.clone()),
        StepClock { n: Cell::new(0) },
        Book::new(),
    );
    engine.observe(RescanTrigger::Startup);
    let book = engine.journal;
    assert_eq!(book.steps.len(), MAX_CASCADE);
    assert_eq!(book.caps.len(), 1);
    assert_eq!(book.caps[0].seq, MAX_CASCADE as u64 - 1);
    assert_eq!(book.caps[0].payload, (MAX_CASCADE + 1).to_string());

    let calm = observe_and_step(vec![snap(Some(1), 1, 1), snap(Some(1), 2, 2)]);
    assert!(calm.caps.is_empty());
}

#[test]
fn a_look_asked_for_after_a_rescue_sees_the_rescued_desk() {
    let desk = desk(vec![snap(Some(1), 1, 1)]);
    let (_, book, _) = run(&desk, vec![Msg::Rescue, Msg::Rescan(RescanTrigger::Periodic)]);
    assert_eq!(book.kinds(), ["world_observed", "rescue_engaged", "world_observed"]);
}

#[test]
fn a_gesture_keeps_its_place_between_hotkeys_and_replays_clean() {
    let desk = desk(vec![snap(Some(1), 1, 1)]);
    let at = Point { x: 960.0f64.to_bits(), y: 1075.0f64.to_bits() };
    let (model, book, go_on) = run(
        &desk,
        vec![
            press(HotkeyAction::WorkspaceNext),
            Msg::Gesture(Gesture::MouseDown { at }),
            press(HotkeyAction::WorkspaceNext),
            Msg::Shutdown,
        ],
    );
    assert!(!go_on);
    assert_eq!(model.current(), 3);
    assert_eq!(desk.borrow().snap.active[&1], 3);
    assert_eq!(book.switches(), 2, "the gesture fenced the fold");
    let order: Vec<&str> =
        book.kinds().into_iter().filter(|k| *k == "hotkey" || *k == "gesture").collect();
    assert_eq!(order, ["hotkey", "gesture", "hotkey"]);
    let notes = book.steps.iter().flat_map(|s| s.0.notes.iter());
    assert_eq!(notes.filter(|n| n.kind == "gesture_classified").count(), 1);
    assert!(book.replays_clean());
}

#[test]
fn a_burst_is_one_switch_and_names_its_first_event() {
    let desk = desk(vec![snap(Some(1), 1, 1)]);
    let (model, book, _) = run(
        &desk,
        vec![
            Msg::Hotkey(HotkeyAction::WorkspaceNext, 700_000_000),
            Msg::Hotkey(HotkeyAction::WorkspaceNext, 900_000_000),
            Msg::Shutdown,
        ],
    );
    assert_eq!(model.current(), 3);
    assert_eq!(book.switches(), 1);
    assert_eq!(book.bursts.len(), 1);
    let row = book.bursts[0];
    assert_eq!((row.presses, row.pumped), (2, 1));
    assert!(row.oldest_wait_ms >= 300 && row.newest_wait_ms >= 100);
    assert!(row.newest_wait_ms < row.oldest_wait_ms);
    let seq = row.seq.expect("a batch that pumped names its event");
    assert_eq!(book.kinds()[seq as usize], "hotkey");
    assert!(book.replays_clean());
}

#[test]
fn a_burst_behind_other_steps_names_the_number_its_event_was_logged_under() {
    let desk = desk(vec![snap(Some(1), 1, 1)]);
    let (_, book, _) = run(
        &desk,
        vec![
            Msg::Rescue,
            press(HotkeyAction::WorkspaceNext),
            press(HotkeyAction::WorkspacePrev),
            Msg::Engage,
            press(HotkeyAction::WorkspaceNext),
        ],
    );
    let named: Vec<Option<i64>> = book.bursts.iter().map(|b| b.seq).collect();
    // Startup, the rescue and the engagement come before; the bounce folds away.
    assert_eq!(named, [None, Some(3)]);
    assert_eq!(book.steps[3].0.event.seq, 3);
    assert_eq!(book.kinds()[3], "hotkey");
}

#[test]
fn a_run_can_be_numbered_without_being_written_down() {
    let desk = desk(vec![snap(Some(1), 1, 1)]);
    let mut engine = Engine::new(
        Model::default(),
        |s: &Model, e: &Event<Snap>| update(s, e),
        World(desk.clone()),
        Hands(desk.clone()),
        StepClock { n: Cell::new(0) },
        Logger::begin(1),
    );
    engine.observe(RescanTrigger::Startup);
    assert_eq!(engine.journal.next_seq(), 1);
    engine.pump(Event::Hotkey {
        at: Ts { wall_ms: 2_000, mono_ns: 999 },
        action: HotkeyAction::WorkspaceNext,
    });
    // The press, its result and its look.
    assert_eq!(engine.journal.next_seq(), 4);
}

#[test]
fn looks_come_ahead_of_presses() {
    let desk = desk(vec![snap(Some(1), 1, 1)]);
    let created = |pid: i32| {
        Msg::Rescan(RescanTrigger::AxHint { pid: Some(Pid(pid)), kind: AxHintKind::WindowCreated })
    };
    let (_, book, go_on) = run(
        &desk,
        vec![press(HotkeyAction::WorkspaceNext), created(7), created(8), created(7)],
    );
    assert!(go_on);
    assert_eq!(
        book.kinds(),
        // Startup and the two looks, the press, its result and its own look.
        [
            "world_observed",
            "world_observed",
            "world_observed",
            "hotkey",
            "effect_result",
            "world_observed"
        ]
    );
    assert_eq!(book.results, [(1, "ok")]);
    assert!(book.replays_clean());
}

#[test]
fn engaging_brings_the_workspaces_up_and_saving_keeps_them() {
    let desk = desk(vec![snap(None, 1, 1)]);
    let (_, book, _) = run(&desk, vec![Msg::Engage, Msg::EngageFresh, Msg::SaveState, Msg::Rescue]);
    assert_eq!(desk.borrow().brought_up, [true, false]);
    assert_eq!(desk.borrow().saved, 1);
    assert_eq!(book.kinds(), ["world_observed", "engaged", "engaged", "rescue_engaged"]);
}
