//! The structured log, as the rows it consists of.
//!
//! The log is the stream of events, effects and notes that produced every
//! decision, stored so that it can be replayed. An engine step leaves one event
//! row, a row for each effect and each note, and every so often a checkpoint of
//! the whole state. Beside the record stands telemetry: operation results,
//! restack timings, how long presses queued, what each observation cost.

use crate::engine::Event;
use crate::ports::{following, Journal, RaiseStat, RestackStats, SnapshotStats};
use crate::schema;
use crate::text::{decimal, decimal_text, owned};
use crate::vocab::{Effect, Note, OpId, OpOutcome, WindowId};
use vstd::prelude::*;

verus! {

/// A checkpoint every this many events.
pub const CHECKPOINT_EVERY: u64 = 200;

/// Runs that began longer ago than this are pruned when a log is opened.
pub const RETENTION_MS: i64 = 1_209_600_000;

/// One batch of queued hotkeys, as the engine dequeued it: the only record of
/// the time presses spent waiting behind the engine's previous work.
#[derive(Clone, Copy, Debug, PartialEq, Eq, Structural)]
pub struct HotkeyBatch {
    /// The first hotkey event the batch pumped; `None` when it folded to
    /// nothing.
    pub first_seq: Option<u64>,
    pub presses: usize,
    pub pumped: usize,
    /// Nanoseconds the press that waited longest had waited.
    pub oldest_wait: u64,
    /// Nanoseconds the press that waited least had waited.
    pub newest_wait: u64,
}

// --- where the log is ----------------------------------------------------------

/// A path one component longer.
pub open spec fn joined_path(base: Seq<char>, name: Seq<char>) -> Seq<char> {
    if base.len() == 0 || base.last() == '/' {
        base + name
    } else {
        base + "/"@ + name
    }
}

/// A path one component longer.
pub fn join_path(base: String, name: &str) -> (r: String)
    ensures
        r@ == joined_path(base@, name@),
{
    let mut r = base;
    let n: usize = r.as_str().unicode_len();
    if n > 0 && r.as_str().get_char(n - 1) != '/' {
        r.append("/");
    }
    r.append(name);
    r
}

/// The canonical location of the log, given the user's home directory. Without
/// one it is below the working directory.
pub fn default_db_path(home: Option<&str>) -> (r: String)
    ensures
        r@ == joined_path(
            joined_path(
                joined_path(
                    joined_path(
                        (match home {
                            Some(h) => h@,
                            None => "."@,
                        }),
                        "Library"@,
                    ),
                    "Application Support"@,
                ),
                "Ordo"@,
            ),
            "log.db"@,
        ),
{
    let base = match home {
        Some(h) => owned(h),
        None => owned("."),
    };
    join_path(join_path(join_path(join_path(base, "Library"), "Application Support"), "Ordo"), "log.db")
}

// --- opening --------------------------------------------------------------------

/// One thing to do to a log being opened.
#[derive(Clone, Copy, Debug, PartialEq, Eq, Structural)]
pub enum OpenStep {
    /// Record this version.
    Stamp(i32),
    /// Delete the runs that began before this wall time.
    Prune(i64),
    /// Run the migration to this version, in its own transaction.
    Migrate(i32),
    /// Begin a run at this wall time.
    BeginRun(i64),
}

/// What opening does to a log, in order. Retention comes before migration: one
/// that rewrites a table should not pay for rows that are on their way out.
pub open spec fn opening(recorded: int, has_runs: bool, now_wall_ms: i64) -> Seq<OpenStep> {
    let version = schema::version_at(recorded, has_runs);
    let stamp = if version != recorded {
        seq![OpenStep::Stamp(version as i32)]
    } else {
        Seq::empty()
    };
    let prune = if version >= 1 {
        seq![OpenStep::Prune((now_wall_ms - RETENTION_MS) as i64)]
    } else {
        Seq::empty()
    };
    let migrate = schema::steps_above(version, schema::CURRENT_VERSION as nat).map_values(
        |to: i32| OpenStep::Migrate(to),
    );
    stamp + prune + migrate + seq![OpenStep::BeginRun(now_wall_ms)]
}

/// Plan the opening of a log that records version `recorded`; `has_runs` is
/// whether it has a `runs` table.
pub fn plan_opening(recorded: i32, has_runs: bool, now_wall_ms: i64) -> (r: Result<
    Vec<OpenStep>,
    String,
>)
    requires
        now_wall_ms >= i64::MIN + RETENTION_MS,
    ensures
        r is Err <==> recorded > schema::CURRENT_VERSION,
        r matches Err(msg) ==> msg@ == schema::refusal(recorded as int),
        r matches Ok(steps) ==> steps@ == opening(recorded as int, has_runs, now_wall_ms),
{
    let opened = match schema::open_version(recorded, has_runs) {
        Ok(o) => o,
        Err(msg) => {
            return Err(msg);
        },
    };
    let mut steps: Vec<OpenStep> = Vec::new();
    if opened.stamp {
        steps.push(OpenStep::Stamp(opened.version));
    }
    if opened.version >= 1 {
        steps.push(OpenStep::Prune(now_wall_ms - RETENTION_MS));
    }
    let ghost head = steps@;
    let migrations = schema::migrate(opened.version);
    let ghost to_step = |to: i32| OpenStep::Migrate(to);
    assert(head =~= head + migrations@.take(0).map_values(to_step));
    for i in 0..migrations.len()
        invariant
            steps@ == head + migrations@.take(i as int).map_values(to_step),
            to_step == (|to: i32| OpenStep::Migrate(to)),
    {
        steps.push(OpenStep::Migrate(migrations[i]));
        assert(migrations@.take(i + 1).map_values(to_step) =~= migrations@.take(
            i as int,
        ).map_values(to_step).push(OpenStep::Migrate(migrations@[i as int])));
    }
    assert(migrations@.take(migrations@.len() as int) =~= migrations@);
    steps.push(OpenStep::BeginRun(now_wall_ms));
    assert(steps@ =~= opening(recorded as int, has_runs, now_wall_ms));
    Ok(steps)
}

/// Retention runs before any migration, once at most, and never on a file that
/// is empty; every opening ends by beginning exactly one run.
pub proof fn law_retention_precedes_migration(
    recorded: int,
    has_runs: bool,
    now_wall_ms: i64,
    i: int,
    j: int,
)
    requires
        0 <= i < opening(recorded, has_runs, now_wall_ms).len(),
        0 <= j < opening(recorded, has_runs, now_wall_ms).len(),
    ensures
        ({
            let steps = opening(recorded, has_runs, now_wall_ms);
            &&& steps[i] is Prune && steps[j] is Migrate ==> i < j
            &&& steps[i] is Prune && steps[j] is Prune ==> i == j
            &&& steps[i] is Prune ==> schema::version_at(recorded, has_runs) >= 1
            &&& steps[i] is BeginRun <==> i == steps.len() - 1
        }),
{
}

// --- rows -------------------------------------------------------------------------

/// A row of `events`.
#[derive(Debug)]
pub struct EventRow {
    pub seq: u64,
    pub wall_ms: i64,
    pub mono_ns: i64,
    pub kind: &'static str,
    pub payload: String,
}

/// A row of `effects`.
#[derive(Debug)]
pub struct EffectRow {
    pub ord: i64,
    pub op_id: Option<i64>,
    pub kind: &'static str,
    pub payload: String,
}

/// A row of `notes`.
#[derive(Debug)]
pub struct NoteRow {
    pub ord: i64,
    pub kind: &'static str,
    pub payload: String,
}

/// Everything one engine step leaves in the log, written in one transaction.
#[derive(Debug)]
pub struct StepRows {
    pub run_id: i64,
    pub event: EventRow,
    pub effects: Vec<EffectRow>,
    pub notes: Vec<NoteRow>,
    /// Write the state after the step down beside it.
    pub checkpoint: bool,
    /// What the observation cost, if the event is one.
    pub cost: Option<SnapshotRow>,
}

/// A row of `notes` that says a reaction ran the limit of its steps out. It
/// stands ahead of the core's own notes on the last step.
#[derive(Debug)]
pub struct CapRow {
    pub run_id: i64,
    pub seq: u64,
    pub ord: i64,
    pub kind: &'static str,
    /// How many events were dropped.
    pub payload: String,
}

/// A row of `op_results`.
#[derive(Debug)]
pub struct OpResultRow {
    pub run_id: i64,
    pub op_id: i64,
    pub wall_ms: i64,
    pub outcome: &'static str,
    pub detail: Option<String>,
}

/// A row of `park_trace`.
#[derive(Debug)]
pub struct ParkRow {
    pub run_id: i64,
    pub wall_ms: i64,
    pub window: i64,
    pub kind: String,
    pub payload: String,
}

/// The row a trace of a window, its kind and its serialised form becomes.
pub open spec fn park_row(run_id: i64, wall_ms: i64, t: (WindowId, String, String)) -> ParkRow {
    ParkRow { run_id, wall_ms, window: t.0.0 as i64, kind: t.1, payload: t.2 }
}

/// A row of `restacks`, and the rows of `raises` that belong to it.
#[derive(Debug)]
pub struct RestackRows {
    pub run_id: i64,
    pub wall_ms: i64,
    pub total_ms: i64,
    pub presence_wait_ms: i64,
    pub handoff_wait_ms: i64,
    pub desired: u32,
    pub missing: u32,
    pub skipped_suffix: u32,
    pub second_pass: bool,
    pub converged: bool,
    pub aborted: bool,
    pub ghost_pass: bool,
    pub raises: Vec<RaiseRow>,
}

/// A row of `raises`.
#[derive(Clone, Copy, Debug)]
pub struct RaiseRow {
    pub ord: i64,
    pub window: u32,
    pub pid: i32,
    pub kind: &'static str,
    pub pass: u8,
    pub above_scope: u32,
    pub above_all: u32,
    pub wait_ms: i64,
    pub timed_out: bool,
    pub via_event: bool,
}

/// A row of `hotkey_batches`.
#[derive(Clone, Copy, Debug, PartialEq, Eq, Structural)]
pub struct HotkeyBatchRow {
    pub run_id: i64,
    pub wall_ms: i64,
    pub seq: Option<i64>,
    pub presses: i64,
    pub pumped: i64,
    pub oldest_wait_ms: i64,
    pub newest_wait_ms: i64,
}

/// A row of `snapshots`, its times still in nanoseconds.
#[derive(Clone, Copy, Debug, PartialEq, Eq, Structural)]
pub struct SnapshotRow {
    pub run_id: i64,
    pub wall_ms: i64,
    pub seq: i64,
    pub total_ns: u64,
    pub walk_ns: u64,
    pub enforce_ns: u64,
    pub apps: i64,
    pub windows: i64,
    pub slowest_pid: Option<i32>,
    pub slowest_ns: Option<u64>,
}

/// The row of what an observation cost; `seq` is its own event.
pub open spec fn cost_row(run_id: i64, seq: u64, s: SnapshotStats, wall_ms: i64) -> SnapshotRow {
    SnapshotRow {
        run_id,
        wall_ms,
        seq: seq as i64,
        total_ns: s.total,
        walk_ns: s.walk,
        enforce_ns: s.enforce,
        apps: s.apps as i64,
        windows: s.windows as i64,
        slowest_pid: match s.slowest {
            Some((p, _)) => Some(p.0),
            None => None,
        },
        slowest_ns: match s.slowest {
            Some((_, d)) => Some(d),
            None => None,
        },
    }
}

/// The rows are those of the step a run is `at`, by the run and the number of its
/// next step, and it goes on to `after`.
pub open spec fn numbered(at: (i64, u64), rows: StepRows, after: (i64, u64)) -> bool {
    &&& rows.run_id == at.0
    &&& rows.event.seq == at.1
    &&& rows.checkpoint == checkpointed(at.1 as int)
    &&& after == (at.0, following(at.1))
}

/// The steps of a run are numbered from zero on without a gap, all under the same
/// run, and each is checkpointed by its number alone, the first of them always.
pub proof fn law_steps_are_numbered_in_order(
    run_id: i64,
    at: Seq<(i64, u64)>,
    rows: Seq<StepRows>,
    i: int,
)
    requires
        at.len() == rows.len() + 1 <= u64::MAX,
        at[0] == (run_id, 0u64),
        forall|k: int|
            #![trigger rows[k]]
            0 <= k < rows.len() ==> numbered(at[k], rows[k], at[k + 1]),
        0 <= i < rows.len(),
    ensures
        rows[i].run_id == run_id,
        rows[i].event.seq == i,
        rows[i].checkpoint == checkpointed(i),
        rows[0].checkpoint,
        at[i + 1] == (run_id, (i + 1) as u64),
    decreases i,
{
    assert(numbered(at[0], rows[0], at[1]));
    assert(numbered(at[i], rows[i], at[i + 1]));
    if i > 0 {
        law_steps_are_numbered_in_order(run_id, at, rows, i - 1);
    }
}

/// The row an effect leaves at place `i` of its step.
pub open spec fn is_effect_row(row: EffectRow, i: int, effect: Effect, payload: String) -> bool {
    &&& row.ord == i
    &&& row.op_id == (match op_of(effect) {
        Some(op) => Some(op.0 as i64),
        None => None,
    })
    &&& row.kind@ == effect_word(effect)
    &&& row.payload == payload
}

/// The row a note leaves at place `i` of its step.
pub open spec fn is_note_row(row: NoteRow, i: int, note: Note, payload: String) -> bool {
    &&& row.ord == i
    &&& row.kind@ == note_word(note)
    &&& row.payload == payload
}

/// The row a raise leaves at place `i` of its restack.
pub open spec fn is_raise_row(row: RaiseRow, i: int, r: RaiseStat) -> bool {
    &&& row.ord == i
    &&& row.window == r.window.0
    &&& row.pid == r.pid
    &&& row.kind@ == r.kind.word()
    &&& row.pass == r.pass
    &&& row.above_scope == r.above_scope
    &&& row.above_all == r.above_all
    &&& row.wait_ms == r.wait_ms as i64
    &&& row.timed_out == r.timed_out
    &&& row.via_event == r.via_event
}

/// A step at `seq` is one that a checkpoint is written at.
pub open spec fn checkpointed(seq: int) -> bool {
    seq % CHECKPOINT_EVERY as int == 0
}

/// One run of the log being written.
#[derive(Debug)]
pub struct Logger {
    run_id: i64,
    seq: u64,
}

impl Logger {
    /// The run, and the number its next step gets.
    pub closed spec fn at(&self) -> (i64, u64) {
        (self.run_id, self.seq)
    }

    /// A run that has just begun, under the number the database gave it.
    pub fn begin(run_id: i64) -> (r: Logger)
        ensures
            r.at() == (run_id, 0u64),
    {
        Logger { run_id, seq: 0 }
    }

    pub fn run_id(&self) -> (r: i64)
        ensures
            r == self.at().0,
    {
        self.run_id
    }

    /// The number the next logged step will get.
    pub fn next_seq(&self) -> (r: u64)
        ensures
            r == self.at().1,
    {
        self.seq
    }

    /// The rows of one engine step. The payloads are the serialised event,
    /// effects and notes. What an observation cost is logged under its own event.
    pub fn log_step<W>(
        &mut self,
        event: &Event<W>,
        payload: String,
        effects: &Vec<Effect>,
        effect_payloads: Vec<String>,
        notes: &Vec<Note>,
        note_payloads: Vec<String>,
        cost: Option<SnapshotStats>,
    ) -> (r: StepRows)
        requires
            effects@.len() == effect_payloads@.len() <= i64::MAX,
            notes@.len() == note_payloads@.len() <= i64::MAX,
        ensures
            numbered(old(self).at(), r, final(self).at()),
            r.event.wall_ms == time_of(*event).wall_ms,
            r.event.mono_ns == time_of(*event).mono_ns as i64,
            r.event.kind@ == event_word(*event),
            r.event.payload == payload,
            r.effects@.len() == effects@.len(),
            forall|i: int|
                0 <= i < effects@.len() ==> is_effect_row(
                    #[trigger] r.effects@[i],
                    i,
                    effects@[i],
                    effect_payloads@[i],
                ),
            r.notes@.len() == notes@.len(),
            forall|i: int|
                0 <= i < notes@.len() ==> is_note_row(
                    #[trigger] r.notes@[i],
                    i,
                    notes@[i],
                    note_payloads@[i],
                ),
            r.cost == (match (*event, cost) {
                (Event::WorldObserved { at, .. }, Some(s)) => Some(
                    cost_row(old(self).at().0, old(self).at().1, s, at.wall_ms),
                ),
                _ => None,
            }),
    {
        let seq: u64 = self.seq;
        self.advance();
        let (wall_ms, mono_ns) = event_time(event);
        let cost_row: Option<SnapshotRow> = match (event, cost) {
            (Event::WorldObserved { .. }, Some(s)) => {
                Some(self.log_snapshot_stats(seq, s, wall_ms))
            },
            _ => None,
        };
        let mut effect_rows: Vec<EffectRow> = Vec::new();
        let ghost payloads = effect_payloads@;
        for payload in it: effect_payloads
            invariant
                it.seq() == payloads,
                payloads.len() == effects@.len() <= i64::MAX,
                effect_rows@.len() == it.index(),
                forall|i: int|
                    0 <= i < effect_rows@.len() ==> is_effect_row(
                        #[trigger] effect_rows@[i],
                        i,
                        effects@[i],
                        payloads[i],
                    ),
        {
            let i: usize = effect_rows.len();
            let op_id: Option<i64> = match effect_op(&effects[i]) {
                Some(op) => Some(op.0 as i64),
                None => None,
            };
            let kind = effect_kind(&effects[i]);
            effect_rows.push(EffectRow { ord: i as i64, op_id, kind, payload });
        }
        let mut note_rows: Vec<NoteRow> = Vec::new();
        let ghost payloads = note_payloads@;
        for payload in it: note_payloads
            invariant
                it.seq() == payloads,
                payloads.len() == notes@.len() <= i64::MAX,
                note_rows@.len() == it.index(),
                forall|i: int|
                    0 <= i < note_rows@.len() ==> is_note_row(
                        #[trigger] note_rows@[i],
                        i,
                        notes@[i],
                        payloads[i],
                    ),
        {
            let i: usize = note_rows.len();
            let kind = note_kind(&notes[i]);
            note_rows.push(NoteRow { ord: i as i64, kind, payload });
        }
        StepRows {
            run_id: self.run_id,
            event: EventRow { seq, wall_ms, mono_ns, kind: event_kind(event), payload },
            effects: effect_rows,
            notes: note_rows,
            checkpoint: seq % CHECKPOINT_EVERY == 0,
            cost: cost_row,
        }
    }

    /// The next step gets the next number.
    fn advance(&mut self)
        ensures
            final(self).at() == (old(self).at().0, following(old(self).at().1)),
    {
        self.seq = if self.seq == u64::MAX {
            0
        } else {
            self.seq + 1
        };
    }

    /// That the reaction to an event ran the limit of its steps out, beside the
    /// last step logged. `None` before the first step.
    pub fn log_cascade_cap(&self, dropped: usize) -> (r: Option<CapRow>)
        ensures
            r is None <==> self.at().1 == 0,
            r matches Some(row) ==> {
                &&& row.run_id == self.at().0
                &&& row.seq == self.at().1 - 1
                &&& row.ord == -1
                &&& row.kind@ == "cascade_capped"@
                &&& row.payload@ == decimal(dropped as nat)
            },
    {
        if self.seq == 0 {
            return None;
        }
        Some(
            CapRow {
                run_id: self.run_id,
                seq: self.seq - 1,
                ord: -1,
                kind: "cascade_capped",
                payload: decimal_text(dropped as u64),
            },
        )
    }

    /// How an operation's executor said it went.
    pub fn log_op_result(&self, op: OpId, outcome: OpOutcome, now_wall_ms: i64) -> (r: OpResultRow)
        ensures
            r.run_id == self.at().0,
            r.op_id == op.0 as i64,
            r.wall_ms == now_wall_ms,
            match outcome {
                OpOutcome::Done => r.outcome@ == "ok"@ && r.detail is None,
                OpOutcome::Timeout => r.outcome@ == "timeout"@ && r.detail is None,
                OpOutcome::Failed { detail } => r.outcome@ == "failed"@ && r.detail == Some(detail),
            },
    {
        let (word, detail): (&'static str, Option<String>) = match outcome {
            OpOutcome::Done => ("ok", None),
            OpOutcome::Timeout => ("timeout", None),
            OpOutcome::Failed { detail } => ("failed", Some(detail)),
        };
        OpResultRow {
            run_id: self.run_id,
            op_id: op.0 as i64,
            wall_ms: now_wall_ms,
            outcome: word,
            detail,
        }
    }

    /// The workspace mechanism's own account of itself: for each trace its window,
    /// its kind and its serialised form. With no rows there is nothing to write.
    pub fn log_park_trace(&self, traces: Vec<(WindowId, String, String)>, now_wall_ms: i64) -> (r:
        Vec<ParkRow>)
        ensures
            r@.len() == traces@.len(),
            forall|i: int|
                0 <= i < r@.len() ==> #[trigger] r@[i] == park_row(
                    self.at().0,
                    now_wall_ms,
                    traces@[i],
                ),
    {
        let mut rows: Vec<ParkRow> = Vec::new();
        let ghost all = traces@;
        for t in it: traces
            invariant
                it.seq() == all,
                rows@.len() == it.index(),
                forall|i: int|
                    0 <= i < rows@.len() ==> #[trigger] rows@[i] == park_row(
                        self.at().0,
                        now_wall_ms,
                        all[i],
                    ),
        {
            let (window, kind, payload) = t;
            rows.push(
                ParkRow {
                    run_id: self.run_id,
                    wall_ms: now_wall_ms,
                    window: window.0 as i64,
                    kind,
                    payload,
                },
            );
        }
        rows
    }

    /// A restack's timing, and that of each raise it issued.
    pub fn log_restack_stats(&self, s: &RestackStats, now_wall_ms: i64) -> (r: RestackRows)
        requires
            s.raises@.len() <= i64::MAX,
        ensures
            r.run_id == self.at().0,
            r.wall_ms == now_wall_ms,
            r.total_ms == s.total_ms as i64,
            r.presence_wait_ms == s.presence_wait_ms as i64,
            r.handoff_wait_ms == s.handoff_wait_ms as i64,
            r.desired == s.desired,
            r.missing == s.missing,
            r.skipped_suffix == s.skipped_suffix,
            r.second_pass == s.second_pass,
            r.converged == s.converged,
            r.aborted == s.aborted,
            r.ghost_pass == s.ghost_pass,
            r.raises@.len() == s.raises@.len(),
            forall|i: int|
                0 <= i < s.raises@.len() ==> is_raise_row(#[trigger] r.raises@[i], i, s.raises@[i]),
    {
        let mut raises: Vec<RaiseRow> = Vec::new();
        for i in 0..s.raises.len()
            invariant
                s.raises@.len() <= i64::MAX,
                raises@.len() == i,
                forall|j: int| 0 <= j < i ==> is_raise_row(#[trigger] raises@[j], j, s.raises@[j]),
        {
            let r = s.raises[i];
            raises.push(
                RaiseRow {
                    ord: i as i64,
                    window: r.window.0,
                    pid: r.pid,
                    kind: r.kind.as_str(),
                    pass: r.pass,
                    above_scope: r.above_scope,
                    above_all: r.above_all,
                    wait_ms: r.wait_ms as i64,
                    timed_out: r.timed_out,
                    via_event: r.via_event,
                },
            );
        }
        RestackRows {
            run_id: self.run_id,
            wall_ms: now_wall_ms,
            total_ms: s.total_ms as i64,
            presence_wait_ms: s.presence_wait_ms as i64,
            handoff_wait_ms: s.handoff_wait_ms as i64,
            desired: s.desired,
            missing: s.missing,
            skipped_suffix: s.skipped_suffix,
            second_pass: s.second_pass,
            converged: s.converged,
            aborted: s.aborted,
            ghost_pass: s.ghost_pass,
            raises,
        }
    }

    /// How long a batch of presses queued, to the whole millisecond.
    pub fn log_hotkey_batch(&self, b: HotkeyBatch, now_wall_ms: i64) -> (r: HotkeyBatchRow)
        ensures
            r == (HotkeyBatchRow {
                run_id: self.at().0,
                wall_ms: now_wall_ms,
                seq: match b.first_seq {
                    Some(s) => Some(s as i64),
                    None => None,
                },
                presses: b.presses as i64,
                pumped: b.pumped as i64,
                oldest_wait_ms: (b.oldest_wait / 1_000_000) as i64,
                newest_wait_ms: (b.newest_wait / 1_000_000) as i64,
            }),
    {
        HotkeyBatchRow {
            run_id: self.run_id,
            wall_ms: now_wall_ms,
            seq: match b.first_seq {
                Some(s) => Some(s as i64),
                None => None,
            },
            presses: b.presses as i64,
            pumped: b.pumped as i64,
            oldest_wait_ms: (b.oldest_wait / 1_000_000) as i64,
            newest_wait_ms: (b.newest_wait / 1_000_000) as i64,
        }
    }

    /// What an observation cost; `seq` is its own event.
    pub fn log_snapshot_stats(&self, seq: u64, s: SnapshotStats, now_wall_ms: i64) -> (r: SnapshotRow)
        ensures
            r == cost_row(self.at().0, seq, s, now_wall_ms),
    {
        let (slowest_pid, slowest_ns): (Option<i32>, Option<u64>) = match s.slowest {
            Some((p, d)) => (Some(p.0), Some(d)),
            None => (None, None),
        };
        SnapshotRow {
            run_id: self.run_id,
            wall_ms: now_wall_ms,
            seq: seq as i64,
            total_ns: s.total,
            walk_ns: s.walk,
            enforce_ns: s.enforce,
            apps: s.apps as i64,
            windows: s.windows as i64,
            slowest_pid,
            slowest_ns,
        }
    }

    /// The wall time this run ended at, for the row it began with.
    pub fn close(&self, now_wall_ms: i64) -> (r: (i64, i64))
        ensures
            r == (self.at().0, now_wall_ms),
    {
        (self.run_id, now_wall_ms)
    }
}

/// A checkpoint is written at the very first step of a run, and any
/// [`CHECKPOINT_EVERY`] steps in a row hold exactly one.
pub proof fn law_checkpoints_are_regular(seq: nat)
    ensures
        checkpointed(0),
        exists|i: int| seq <= i < seq + CHECKPOINT_EVERY && #[trigger] checkpointed(i),
        forall|i: int, j: int|
            seq <= i < seq + CHECKPOINT_EVERY && seq <= j < seq + CHECKPOINT_EVERY
                && #[trigger] checkpointed(i) && #[trigger] checkpointed(j) ==> i == j,
{
    let n: int = 200;
    let i: int = if seq as int % n == 0 {
        seq as int
    } else {
        seq as int - seq as int % n + n
    };
    assert(checkpointed(i));
}

// --- the words of the log -----------------------------------------------------------

/// When an event happened.
pub open spec fn time_of<W>(e: Event<W>) -> crate::vocab::Ts {
    match e {
        Event::Hotkey { at, .. } => at,
        Event::WorldObserved { at, .. } => at,
        Event::EffectResult { at, .. } => at,
        Event::RescueEngaged { at } => at,
        Event::Engaged { at } => at,
        Event::Gesture { at, .. } => at,
    }
}

/// When an event happened, as the log's columns hold it.
pub fn event_time<W>(e: &Event<W>) -> (r: (i64, i64))
    ensures
        r == (time_of(*e).wall_ms, time_of(*e).mono_ns as i64),
{
    let ts = match e {
        Event::Hotkey { at, .. } => *at,
        Event::WorldObserved { at, .. } => *at,
        Event::EffectResult { at, .. } => *at,
        Event::RescueEngaged { at } => *at,
        Event::Engaged { at } => *at,
        Event::Gesture { at, .. } => *at,
    };
    (ts.wall_ms, ts.mono_ns as i64)
}

/// The word the log holds for an event.
pub open spec fn event_word<W>(e: Event<W>) -> Seq<char> {
    match e {
        Event::Hotkey { .. } => "hotkey"@,
        Event::WorldObserved { .. } => "world_observed"@,
        Event::EffectResult { .. } => "effect_result"@,
        Event::RescueEngaged { .. } => "rescue_engaged"@,
        Event::Engaged { .. } => "engaged"@,
        Event::Gesture { .. } => "gesture"@,
    }
}

/// The word the log holds for an event.
pub fn event_kind<W>(e: &Event<W>) -> (r: &'static str)
    ensures
        r@ == event_word(*e),
{
    match e {
        Event::Hotkey { .. } => "hotkey",
        Event::WorldObserved { .. } => "world_observed",
        Event::EffectResult { .. } => "effect_result",
        Event::RescueEngaged { .. } => "rescue_engaged",
        Event::Engaged { .. } => "engaged",
        Event::Gesture { .. } => "gesture",
    }
}

/// The word the log holds for an effect.
pub open spec fn effect_word(e: Effect) -> Seq<char> {
    match e {
        Effect::SwitchWorkspace { .. } => "switch_workspace"@,
        Effect::MoveWindowToWorkspace { .. } => "move_window_to_workspace"@,
        Effect::AssignWindowToWorkspace { .. } => "assign_window_to_workspace"@,
        Effect::AssignWindowToMonitor { .. } => "assign_window_to_monitor"@,
        Effect::ViewMonitor { .. } => "view_monitor"@,
        Effect::SetVirtualMonitors { .. } => "set_virtual_monitors"@,
        Effect::MergeMonitors { .. } => "merge_monitors"@,
        Effect::AddMonitor { .. } => "add_monitor"@,
        Effect::SetWindowFrame { .. } => "set_window_frame"@,
        Effect::FocusWindow { .. } => "focus_window"@,
        Effect::FocusDesktop { .. } => "focus_desktop"@,
        Effect::WarpMouse { .. } => "warp_mouse"@,
        Effect::RestackWindows { .. } => "restack_windows"@,
        Effect::RequestRescan { .. } => "request_rescan"@,
        Effect::SetIntercepting { .. } => "set_intercepting"@,
    }
}

/// The word the log holds for an effect.
pub fn effect_kind(e: &Effect) -> (r: &'static str)
    ensures
        r@ == effect_word(*e),
{
    match e {
        Effect::SwitchWorkspace { .. } => "switch_workspace",
        Effect::MoveWindowToWorkspace { .. } => "move_window_to_workspace",
        Effect::AssignWindowToWorkspace { .. } => "assign_window_to_workspace",
        Effect::AssignWindowToMonitor { .. } => "assign_window_to_monitor",
        Effect::ViewMonitor { .. } => "view_monitor",
        Effect::SetVirtualMonitors { .. } => "set_virtual_monitors",
        Effect::MergeMonitors { .. } => "merge_monitors",
        Effect::AddMonitor { .. } => "add_monitor",
        Effect::SetWindowFrame { .. } => "set_window_frame",
        Effect::FocusWindow { .. } => "focus_window",
        Effect::FocusDesktop { .. } => "focus_desktop",
        Effect::WarpMouse { .. } => "warp_mouse",
        Effect::RestackWindows { .. } => "restack_windows",
        Effect::RequestRescan { .. } => "request_rescan",
        Effect::SetIntercepting { .. } => "set_intercepting",
    }
}

/// The word the log holds for a note.
pub open spec fn note_word(e: Note) -> Seq<char> {
    match e {
        Note::SelfConfirmed => "self_confirmed"@,
        Note::OpLost => "op_lost"@,
        Note::OpFailed => "op_failed"@,
        Note::External => "external"@,
        Note::GestureClassified => "gesture_classified"@,
        Note::FollowedFocus => "followed_focus"@,
        Note::MonitorAdopted => "monitor_adopted"@,
        Note::HeldFocus => "held_focus"@,
        Note::FocusReasserted => "focus_reasserted"@,
        Note::FocusDiverged => "focus_diverged"@,
        Note::DesktopReasserted => "desktop_reasserted"@,
        Note::DesktopDiverged => "desktop_diverged"@,
        Note::TearDetected => "tear_detected"@,
        Note::TearPersisting => "tear_persisting"@,
        Note::Diverged => "diverged"@,
    }
}

/// The word the log holds for a note.
pub fn note_kind(e: &Note) -> (r: &'static str)
    ensures
        r@ == note_word(*e),
{
    match e {
        Note::SelfConfirmed => "self_confirmed",
        Note::OpLost => "op_lost",
        Note::OpFailed => "op_failed",
        Note::External => "external",
        Note::GestureClassified => "gesture_classified",
        Note::FollowedFocus => "followed_focus",
        Note::MonitorAdopted => "monitor_adopted",
        Note::HeldFocus => "held_focus",
        Note::FocusReasserted => "focus_reasserted",
        Note::FocusDiverged => "focus_diverged",
        Note::DesktopReasserted => "desktop_reasserted",
        Note::DesktopDiverged => "desktop_diverged",
        Note::TearDetected => "tear_detected",
        Note::TearPersisting => "tear_persisting",
        Note::Diverged => "diverged",
    }
}

/// The operation an effect is issued under, if it reports back at all.
pub open spec fn op_of(e: Effect) -> Option<OpId> {
    match e {
        Effect::SwitchWorkspace { op, .. } => Some(op),
        Effect::MoveWindowToWorkspace { op, .. } => Some(op),
        Effect::AssignWindowToWorkspace { op, .. } => Some(op),
        Effect::AssignWindowToMonitor { op, .. } => Some(op),
        Effect::ViewMonitor { op, .. } => Some(op),
        Effect::SetVirtualMonitors { op, .. } => Some(op),
        Effect::MergeMonitors { op, .. } => Some(op),
        Effect::AddMonitor { op, .. } => Some(op),
        Effect::SetWindowFrame { op, .. } => Some(op),
        Effect::FocusWindow { op, .. } => Some(op),
        Effect::FocusDesktop { op, .. } => Some(op),
        Effect::WarpMouse { .. } => None,
        Effect::RestackWindows { .. } => None,
        Effect::RequestRescan { .. } => None,
        Effect::SetIntercepting { .. } => None,
    }
}

/// The operation an effect is issued under, if it reports back at all.
pub fn effect_op(e: &Effect) -> (r: Option<OpId>)
    ensures
        r == op_of(*e),
        *e is SwitchWorkspace ==> r == Some(e->SwitchWorkspace_op),
        *e is MoveWindowToWorkspace ==> r == Some(e->MoveWindowToWorkspace_op),
        *e is AssignWindowToWorkspace ==> r == Some(e->AssignWindowToWorkspace_op),
        *e is AssignWindowToMonitor ==> r == Some(e->AssignWindowToMonitor_op),
        *e is ViewMonitor ==> r == Some(e->ViewMonitor_op),
        *e is SetVirtualMonitors ==> r == Some(e->SetVirtualMonitors_op),
        *e is MergeMonitors ==> r == Some(e->MergeMonitors_op),
        *e is AddMonitor ==> r == Some(e->AddMonitor_op),
        *e is SetWindowFrame ==> r == Some(e->SetWindowFrame_op),
        *e is FocusWindow ==> r == Some(e->FocusWindow_op),
        *e is FocusDesktop ==> r == Some(e->FocusDesktop_op),
{
    match e {
        Effect::SwitchWorkspace { op, .. } => Some(*op),
        Effect::MoveWindowToWorkspace { op, .. } => Some(*op),
        Effect::AssignWindowToWorkspace { op, .. } => Some(*op),
        Effect::AssignWindowToMonitor { op, .. } => Some(*op),
        Effect::ViewMonitor { op, .. } => Some(*op),
        Effect::SetVirtualMonitors { op, .. } => Some(*op),
        Effect::MergeMonitors { op, .. } => Some(*op),
        Effect::AddMonitor { op, .. } => Some(*op),
        Effect::SetWindowFrame { op, .. } => Some(*op),
        Effect::FocusWindow { op, .. } => Some(*op),
        Effect::FocusDesktop { op, .. } => Some(*op),
        Effect::WarpMouse { .. } => None,
        Effect::RestackWindows { .. } => None,
        Effect::RequestRescan { .. } => None,
        Effect::SetIntercepting { .. } => None,
    }
}

/// The log tells events apart by their words.
pub proof fn law_event_words_tell_apart<W>(a: Event<W>, b: Event<W>)
    requires
        event_word(a) == event_word(b),
    ensures
        a is Hotkey <==> b is Hotkey,
        a is WorldObserved <==> b is WorldObserved,
        a is EffectResult <==> b is EffectResult,
        a is RescueEngaged <==> b is RescueEngaged,
        a is Engaged <==> b is Engaged,
        a is Gesture <==> b is Gesture,
{
    reveal_strlit("hotkey");
    reveal_strlit("world_observed");
    reveal_strlit("effect_result");
    reveal_strlit("rescue_engaged");
    reveal_strlit("engaged");
    reveal_strlit("gesture");
    assert("hotkey"@[0] == 'h');
    assert("engaged"@[0] == 'e' && "engaged"@.len() == 7);
    assert("gesture"@[0] == 'g');
    assert("world_observed"@[0] == 'w');
    assert("effect_result"@[0] == 'e' && "effect_result"@.len() == 13);
    assert("rescue_engaged"@[0] == 'r');
}

/// A run that is only numbered, with nothing written down.
impl<S, W, N> Journal<S, W, N> for Logger {
    open spec fn number(self) -> u64 {
        self.at().1
    }

    fn log_step(&mut self, _event: &Event<W>, _effects: &Vec<Effect>, _notes: &Vec<N>, _state: &S) {
        self.advance();
    }

    fn log_op_result(&mut self, _op: OpId, _outcome: &OpOutcome, _now_wall_ms: i64) {
    }

    fn log_cascade_cap(&mut self, _dropped: usize) {
    }

    fn next_seq(&self) -> (r: u64) {
        self.seq
    }

    fn log_hotkey_batch(&mut self, _batch: HotkeyBatch, _now_wall_ms: i64) {
    }

    fn log_restack_stats(&mut self, _stats: &RestackStats, _now_wall_ms: i64) {
    }
}

/// An effect is logged under its own operation, the one its result comes back
/// under; an effect that was issued under none is logged under none.
pub proof fn law_effects_are_logged_under_their_own_operation(
    row: EffectRow,
    i: int,
    effect: Effect,
    payload: String,
)
    requires
        is_effect_row(row, i, effect, payload),
    ensures
        row.ord == i,
        row.payload == payload,
        row.kind@ == effect_word(effect),
        effect is SwitchWorkspace ==> row.op_id == Some(effect->SwitchWorkspace_op.0 as i64),
        effect is MoveWindowToWorkspace ==> row.op_id == Some(effect->MoveWindowToWorkspace_op.0 as i64),
        effect is AssignWindowToWorkspace ==> row.op_id == Some(effect->AssignWindowToWorkspace_op.0 as i64),
        effect is AssignWindowToMonitor ==> row.op_id == Some(effect->AssignWindowToMonitor_op.0 as i64),
        effect is ViewMonitor ==> row.op_id == Some(effect->ViewMonitor_op.0 as i64),
        effect is SetVirtualMonitors ==> row.op_id == Some(effect->SetVirtualMonitors_op.0 as i64),
        effect is MergeMonitors ==> row.op_id == Some(effect->MergeMonitors_op.0 as i64),
        effect is AddMonitor ==> row.op_id == Some(effect->AddMonitor_op.0 as i64),
        effect is SetWindowFrame ==> row.op_id == Some(effect->SetWindowFrame_op.0 as i64),
        effect is FocusWindow ==> row.op_id == Some(effect->FocusWindow_op.0 as i64),
        effect is FocusDesktop ==> row.op_id == Some(effect->FocusDesktop_op.0 as i64),
        effect is WarpMouse || effect is RestackWindows || effect is RequestRescan || effect is SetIntercepting ==> row.op_id is None,
{
}

/// Looking for an effect's word in the log finds the effects of that kind and no
/// others.
pub proof fn law_effects_are_found_by_their_words(e: Effect)
    ensures
        effect_word(e) == "switch_workspace"@ <==> e is SwitchWorkspace,
        effect_word(e) == "move_window_to_workspace"@ <==> e is MoveWindowToWorkspace,
        effect_word(e) == "assign_window_to_workspace"@ <==> e is AssignWindowToWorkspace,
        effect_word(e) == "assign_window_to_monitor"@ <==> e is AssignWindowToMonitor,
        effect_word(e) == "view_monitor"@ <==> e is ViewMonitor,
        effect_word(e) == "set_virtual_monitors"@ <==> e is SetVirtualMonitors,
        effect_word(e) == "merge_monitors"@ <==> e is MergeMonitors,
        effect_word(e) == "add_monitor"@ <==> e is AddMonitor,
        effect_word(e) == "set_window_frame"@ <==> e is SetWindowFrame,
        effect_word(e) == "focus_window"@ <==> e is FocusWindow,
        effect_word(e) == "focus_desktop"@ <==> e is FocusDesktop,
        effect_word(e) == "warp_mouse"@ <==> e is WarpMouse,
        effect_word(e) == "restack_windows"@ <==> e is RestackWindows,
        effect_word(e) == "request_rescan"@ <==> e is RequestRescan,
        effect_word(e) == "set_intercepting"@ <==> e is SetIntercepting,
{
    reveal_strlit("switch_workspace");
    reveal_strlit("move_window_to_workspace");
    reveal_strlit("assign_window_to_workspace");
    reveal_strlit("assign_window_to_monitor");
    reveal_strlit("view_monitor");
    reveal_strlit("set_virtual_monitors");
    reveal_strlit("merge_monitors");
    reveal_strlit("add_monitor");
    reveal_strlit("set_window_frame");
    reveal_strlit("focus_window");
    reveal_strlit("focus_desktop");
    reveal_strlit("warp_mouse");
    reveal_strlit("restack_windows");
    reveal_strlit("request_rescan");
    reveal_strlit("set_intercepting");
    assert("switch_workspace"@.len() == 16);
    assert("move_window_to_workspace"@.len() == 24);
    assert("assign_window_to_workspace"@.len() == 26);
    assert("assign_window_to_monitor"@.len() == 24);
    assert("view_monitor"@.len() == 12);
    assert("set_virtual_monitors"@.len() == 20);
    assert("merge_monitors"@.len() == 14);
    assert("add_monitor"@.len() == 11);
    assert("set_window_frame"@.len() == 16);
    assert("focus_window"@.len() == 12);
    assert("focus_desktop"@.len() == 13);
    assert("warp_mouse"@.len() == 10);
    assert("restack_windows"@.len() == 15);
    assert("request_rescan"@.len() == 14);
    assert("set_intercepting"@.len() == 16);
    assert("switch_workspace"@[1] == 'w' && "set_window_frame"@[1] == 'e');
    assert("switch_workspace"@[1] == 'w' && "set_intercepting"@[1] == 'e');
    assert("move_window_to_workspace"@[0] == 'm' && "assign_window_to_monitor"@[0] == 'a');
    assert("view_monitor"@[0] == 'v' && "focus_window"@[0] == 'f');
    assert("merge_monitors"@[0] == 'm' && "request_rescan"@[0] == 'r');
    assert("set_window_frame"@[4] == 'w' && "set_intercepting"@[4] == 'i');
}

/// Looking for a note's word in the log finds the notes of that kind and no others.
pub proof fn law_notes_are_found_by_their_words(e: Note)
    ensures
        note_word(e) == "self_confirmed"@ <==> e is SelfConfirmed,
        note_word(e) == "op_lost"@ <==> e is OpLost,
        note_word(e) == "op_failed"@ <==> e is OpFailed,
        note_word(e) == "external"@ <==> e is External,
        note_word(e) == "gesture_classified"@ <==> e is GestureClassified,
        note_word(e) == "followed_focus"@ <==> e is FollowedFocus,
        note_word(e) == "monitor_adopted"@ <==> e is MonitorAdopted,
        note_word(e) == "held_focus"@ <==> e is HeldFocus,
        note_word(e) == "focus_reasserted"@ <==> e is FocusReasserted,
        note_word(e) == "focus_diverged"@ <==> e is FocusDiverged,
        note_word(e) == "desktop_reasserted"@ <==> e is DesktopReasserted,
        note_word(e) == "desktop_diverged"@ <==> e is DesktopDiverged,
        note_word(e) == "tear_detected"@ <==> e is TearDetected,
        note_word(e) == "tear_persisting"@ <==> e is TearPersisting,
        note_word(e) == "diverged"@ <==> e is Diverged,
{
    reveal_strlit("self_confirmed");
    reveal_strlit("op_lost");
    reveal_strlit("op_failed");
    reveal_strlit("external");
    reveal_strlit("gesture_classified");
    reveal_strlit("followed_focus");
    reveal_strlit("monitor_adopted");
    reveal_strlit("held_focus");
    reveal_strlit("focus_reasserted");
    reveal_strlit("focus_diverged");
    reveal_strlit("desktop_reasserted");
    reveal_strlit("desktop_diverged");
    reveal_strlit("tear_detected");
    reveal_strlit("tear_persisting");
    reveal_strlit("diverged");
    assert("self_confirmed"@.len() == 14);
    assert("op_lost"@.len() == 7);
    assert("op_failed"@.len() == 9);
    assert("external"@.len() == 8);
    assert("gesture_classified"@.len() == 18);
    assert("followed_focus"@.len() == 14);
    assert("monitor_adopted"@.len() == 15);
    assert("held_focus"@.len() == 10);
    assert("focus_reasserted"@.len() == 16);
    assert("focus_diverged"@.len() == 14);
    assert("desktop_reasserted"@.len() == 18);
    assert("desktop_diverged"@.len() == 16);
    assert("tear_detected"@.len() == 13);
    assert("tear_persisting"@.len() == 15);
    assert("diverged"@.len() == 8);
    assert("self_confirmed"@[0] == 's' && "followed_focus"@[0] == 'f');
    assert("self_confirmed"@[0] == 's' && "focus_diverged"@[0] == 'f');
    assert("external"@[0] == 'e' && "diverged"@[0] == 'd');
    assert("gesture_classified"@[0] == 'g' && "desktop_reasserted"@[0] == 'd');
    assert("followed_focus"@[2] == 'l' && "focus_diverged"@[2] == 'c');
    assert("monitor_adopted"@[0] == 'm' && "tear_persisting"@[0] == 't');
    assert("focus_reasserted"@[0] == 'f' && "desktop_diverged"@[0] == 'd');
}

/// Looking for an event's word in the log finds the events of that kind and no
/// others.
pub proof fn law_events_are_found_by_their_words<W>(e: Event<W>)
    ensures
        event_word(e) == "hotkey"@ <==> e is Hotkey,
        event_word(e) == "world_observed"@ <==> e is WorldObserved,
        event_word(e) == "effect_result"@ <==> e is EffectResult,
        event_word(e) == "rescue_engaged"@ <==> e is RescueEngaged,
        event_word(e) == "engaged"@ <==> e is Engaged,
        event_word(e) == "gesture"@ <==> e is Gesture,
{
    reveal_strlit("hotkey");
    reveal_strlit("world_observed");
    reveal_strlit("effect_result");
    reveal_strlit("rescue_engaged");
    reveal_strlit("engaged");
    reveal_strlit("gesture");
    assert("hotkey"@.len() == 6);
    assert("world_observed"@.len() == 14);
    assert("effect_result"@.len() == 13);
    assert("rescue_engaged"@.len() == 14);
    assert("engaged"@.len() == 7);
    assert("gesture"@.len() == 7);
    assert("world_observed"@[0] == 'w' && "rescue_engaged"@[0] == 'r');
    assert("engaged"@[0] == 'e' && "gesture"@[0] == 'g');
}


/// An event is logged at the time it carries, whatever else it carries.
pub proof fn law_events_are_logged_at_their_own_time<W>(e: Event<W>)
    ensures
        e is Hotkey ==> time_of(e) == e->Hotkey_at,
        e is WorldObserved ==> time_of(e) == e->WorldObserved_at,
        e is EffectResult ==> time_of(e) == e->EffectResult_at,
        e is RescueEngaged ==> time_of(e) == e->RescueEngaged_at,
        e is Engaged ==> time_of(e) == e->Engaged_at,
        e is Gesture ==> time_of(e) == e->Gesture_at,
{
}

/// What an observation cost is written down as it was measured, under the event
/// it belongs to and at that event's time.
pub proof fn law_costs_are_logged_as_measured(
    run_id: i64,
    seq: u64,
    s: SnapshotStats,
    wall_ms: i64,
)
    requires
        seq <= i64::MAX,
        s.apps <= i64::MAX,
        s.windows <= i64::MAX,
    ensures
        ({
            let row = cost_row(run_id, seq, s, wall_ms);
            &&& row.run_id == run_id && row.seq == seq && row.wall_ms == wall_ms
            &&& row.total_ns == s.total && row.walk_ns == s.walk && row.enforce_ns == s.enforce
            &&& row.apps == s.apps && row.windows == s.windows
            &&& s.slowest is None <==> row.slowest_pid is None
            &&& s.slowest is None <==> row.slowest_ns is None
            &&& s.slowest is Some ==> row.slowest_pid == Some(s.slowest->Some_0.0.0)
                && row.slowest_ns == Some(s.slowest->Some_0.1)
        }),
{
}

/// A trace of a window is written down under that window, as it was told.
pub proof fn law_traces_are_logged_under_their_window(
    run_id: i64,
    wall_ms: i64,
    window: WindowId,
    kind: String,
    payload: String,
)
    ensures
        ({
            let row = park_row(run_id, wall_ms, (window, kind, payload));
            &&& row.run_id == run_id && row.wall_ms == wall_ms
            &&& row.window == window.0
            &&& row.kind == kind && row.payload == payload
        }),
{
}

/// A raise is written down in its place among the raises, with every figure of
/// it.
pub proof fn law_raises_are_logged_as_measured(row: RaiseRow, i: int, r: RaiseStat)
    requires
        is_raise_row(row, i, r),
        r.wait_ms <= i64::MAX,
    ensures
        row.ord == i && row.window == r.window.0 && row.pid == r.pid && row.pass == r.pass,
        row.above_scope == r.above_scope && row.above_all == r.above_all,
        row.wait_ms == r.wait_ms,
        row.timed_out == r.timed_out && row.via_event == r.via_event,
        row.kind@ == "sibling"@ <==> r.kind is Sibling,
        row.kind@ == "background"@ <==> r.kind is Background,
        row.kind@ == "top"@ <==> r.kind is Top,
{
    reveal_strlit("background");
    reveal_strlit("sibling");
    reveal_strlit("top");
    assert("background"@.len() == 10 && "sibling"@.len() == 7 && "top"@.len() == 3);
}

/// A note is written down in its place among the notes, with its own payload.
pub proof fn law_notes_are_logged_in_their_place(
    row: NoteRow,
    i: int,
    note: Note,
    payload: String,
)
    requires
        is_note_row(row, i, note, payload),
    ensures
        row.ord == i,
        row.payload == payload,
        row.kind@ == note_word(note),
{
}

/// Opening a log prunes exactly the runs that began more than two weeks ago, if
/// it held any, and begins its run at the time it is opened.
pub proof fn law_two_weeks_are_kept(
    recorded: int,
    has_runs: bool,
    now_wall_ms: i64,
    i: int,
    started: i64,
)
    requires
        0 <= i < opening(recorded, has_runs, now_wall_ms).len(),
        now_wall_ms >= i64::MIN + 14 * 24 * 60 * 60 * 1000,
    ensures
        ({
            let step = opening(recorded, has_runs, now_wall_ms)[i];
            &&& step is Prune ==> (started < step->Prune_0 <==> now_wall_ms - started > 14 * 24
                * 60 * 60 * 1000)
            &&& step is BeginRun ==> step->BeginRun_0 == now_wall_ms
        }),
        (has_runs && recorded == 0) || recorded >= 1 ==> exists|k: int|
            0 <= k < opening(recorded, has_runs, now_wall_ms).len() && #[trigger] opening(
                recorded,
                has_runs,
                now_wall_ms,
            )[k] is Prune,
{
    let steps = opening(recorded, has_runs, now_wall_ms);
    let version = schema::version_at(recorded, has_runs);
    if (has_runs && recorded == 0) || recorded >= 1 {
        let k: int = if version != recorded {
            1
        } else {
            0
        };
        assert(steps[k] is Prune);
    }
}

/// The place a path leads to is the name, below the base: joining adds the name
/// after the base, parted by one slash that is there already or not.
pub proof fn law_joined_paths_lead_below(base: Seq<char>, name: Seq<char>)
    requires
        base.len() > 0,
    ensures
        ({
            let path = joined_path(base, name);
            let at = path.len() - name.len();
            &&& base.is_prefix_of(path)
            &&& path.skip(at) == name
            &&& path[at - 1] == '/'
            &&& at <= base.len() + 1
            &&& base.last() == '/' <==> at == base.len()
        }),
{
    reveal_strlit("/");
    let path = joined_path(base, name);
    let at = path.len() - name.len();
    assert("/"@.len() == 1 && "/"@[0] == '/');
    assert(path.subrange(0, base.len() as int) =~= base);
    assert(path.skip(at) =~= name);
}

/// Steps are checkpointed two hundred apart: from one checkpoint the next is two
/// hundred steps on, and there is none between.
pub proof fn law_checkpoints_are_two_hundred_apart(seq: int, d: int)
    requires
        0 <= seq,
        0 < d < 200,
    ensures
        checkpointed(seq) <==> checkpointed(seq + 200),
        checkpointed(seq) ==> !checkpointed(seq + d),
        checkpointed(0),
{
}

/// Opening a log runs the migrations from its version up to the second, and no
/// others; a version that is news to the log is recorded first of all, and that is
/// only ever the first version, of a log that had tables and no version.
pub proof fn law_openings_migrate_what_is_behind(
    recorded: int,
    has_runs: bool,
    now_wall_ms: i64,
    to: i32,
)
    requires
        recorded <= 2,
    ensures
        ({
            let steps = opening(recorded, has_runs, now_wall_ms);
            let adopted = recorded == 0 && has_runs;
            &&& steps.contains(OpenStep::Migrate(to)) <==> {
                ||| to == 1 && recorded <= 0 && !adopted
                ||| to == 2 && recorded <= 1
            }
            &&& steps.contains(OpenStep::Stamp(to)) <==> adopted && to == 1
            &&& adopted ==> steps[0] == OpenStep::Stamp(1)
        }),
{
    let steps = opening(recorded, has_runs, now_wall_ms);
    let version = schema::version_at(recorded, has_runs);
    let chain = schema::steps_above(version, 2);
    reveal_with_fuel(schema::steps_above, 3);
    if version <= 0 {
        assert(chain =~= seq![1i32, 2i32]);
        assert(steps =~= seq![
            OpenStep::Migrate(1),
            OpenStep::Migrate(2),
            OpenStep::BeginRun(now_wall_ms),
        ]);
        assert(steps[0] == OpenStep::Migrate(1) && steps[1] == OpenStep::Migrate(2));
    } else if version == 1 {
        assert(chain =~= seq![2i32]);
        let n = steps.len() as int;
        assert(steps[n - 2] == OpenStep::Migrate(2));
        if recorded == 0 {
            assert(steps[0] == OpenStep::Stamp(1));
        }
    } else {
        assert(chain =~= Seq::empty());
    }
}

} // verus!
