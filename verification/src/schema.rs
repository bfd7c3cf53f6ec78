//! The log database's schema, as a versioned chain of migrations.
//!
//! The version lives in the database's own header word, so the schema needs no
//! bookkeeping table. Opening a log runs every migration above the recorded
//! version, in order, each in its own transaction whose last act is to bump the
//! version: an interrupted upgrade rolls back whole, and the next open resumes
//! at exactly the step that failed.
//!
//! The chain only ever grows at its end. A fresh database runs the same chain
//! from 0 that an old one runs from its own version, which is what keeps the
//! two schemas identical.

use crate::text::{owned, push_decimal};
use vstd::prelude::*;

verus! {

/// The schema version this build writes and understands.
pub const CURRENT_VERSION: i32 = 2;

/// The column migration 2 adds: always an integer that defaults to 0.
#[derive(Clone, Copy, Debug, PartialEq, Eq, Structural)]
pub enum Column {
    RestacksAborted,
    RestacksGhostPass,
    RaisesViaEvent,
}

impl Column {
    /// The table the column belongs to.
    pub open spec fn table_word(self) -> Seq<char> {
        match self {
            Column::RestacksAborted => "restacks"@,
            Column::RestacksGhostPass => "restacks"@,
            Column::RaisesViaEvent => "raises"@,
        }
    }

    /// The column's own name.
    pub open spec fn name_word(self) -> Seq<char> {
        match self {
            Column::RestacksAborted => "aborted"@,
            Column::RestacksGhostPass => "ghost_pass"@,
            Column::RaisesViaEvent => "via_event"@,
        }
    }

    pub fn table(self) -> (r: &'static str)
        ensures
            r@ == self.table_word(),
            self is RaisesViaEvent ==> r@ == "raises"@,
            self !is RaisesViaEvent ==> r@ == "restacks"@,
    {
        match self {
            Column::RestacksAborted => "restacks",
            Column::RestacksGhostPass => "restacks",
            Column::RaisesViaEvent => "raises",
        }
    }

    pub fn name(self) -> (r: &'static str)
        ensures
            r@ == self.name_word(),
            self is RestacksAborted ==> r@ == "aborted"@,
            self is RestacksGhostPass ==> r@ == "ghost_pass"@,
            self is RaisesViaEvent ==> r@ == "via_event"@,
    {
        match self {
            Column::RestacksAborted => "aborted",
            Column::RestacksGhostPass => "ghost_pass",
            Column::RaisesViaEvent => "via_event",
        }
    }

    /// The query that finds the column, if the table has it.
    pub fn exists_sql(self) -> (r: String)
        ensures
            r@ == "SELECT 1 FROM pragma_table_info('"@ + self.table_word() + "') WHERE name = '"@
                + self.name_word() + "'"@,
    {
        let mut r = owned("SELECT 1 FROM pragma_table_info('");
        r.append(self.table());
        r.append("') WHERE name = '");
        r.append(self.name());
        r.append("'");
        r
    }

    /// The statement that adds the column.
    pub fn add_sql(self) -> (r: String)
        ensures
            r@ == "ALTER TABLE "@ + self.table_word() + " ADD COLUMN "@ + self.name_word()
                + " INTEGER NOT NULL DEFAULT 0;"@,
    {
        let mut r = owned("ALTER TABLE ");
        r.append(self.table());
        r.append(" ADD COLUMN ");
        r.append(self.name());
        r.append(" INTEGER NOT NULL DEFAULT 0;");
        r
    }
}

/// The columns migration 2 is about, in the order it adds them.
pub open spec fn telemetry() -> Seq<Column> {
    seq![Column::RestacksAborted, Column::RestacksGhostPass, Column::RaisesViaEvent]
}

/// What opening a log found out.
#[derive(Clone, Copy, Debug, PartialEq, Eq, Structural)]
pub struct Opened {
    /// The version the log is at.
    pub version: i32,
    /// That version is news to the log: write it down.
    pub stamp: bool,
}

/// Why a log of version `recorded` is refused.
pub open spec fn refusal(recorded: int) -> Seq<char> {
    "log db is schema v"@ + crate::text::decimal(recorded as nat)
        + ", but this Ordo understands v"@ + crate::text::decimal(CURRENT_VERSION as nat)
        + "; upgrade Ordo, or move the database aside to start a new log"@
}

/// The version a log is at, given the one it records. Version 0 is what an
/// empty file reports, and equally what logs from before there were versions
/// report; the `runs` table tells the two apart.
pub open spec fn version_at(recorded: int, has_runs: bool) -> int {
    if recorded == 0 && has_runs {
        1
    } else {
        recorded
    }
}

/// Decide the version of an existing log, refusing one from a newer build: its
/// columns and constraints are ones this build has never heard of.
pub fn open_version(recorded: i32, has_runs: bool) -> (r: Result<Opened, String>)
    ensures
        r is Err <==> recorded > CURRENT_VERSION,
        r is Err <==> recorded > 2,
        r matches Ok(o) ==> (o.version == recorded && !o.stamp) || (o.version == 1 && recorded == 0
            && has_runs && o.stamp),
        recorded == 0 && has_runs ==> r == Ok::<Opened, String>(Opened { version: 1, stamp: true }),
        r matches Err(msg) ==> msg@ == refusal(recorded as int),
        r matches Ok(o) ==> o.version == version_at(recorded as int, has_runs) && o.stamp == (
        o.version != recorded),
{
    if recorded > CURRENT_VERSION {
        let mut msg = owned("log db is schema v");
        push_decimal(&mut msg, recorded as u64);
        msg.append(", but this Ordo understands v");
        push_decimal(&mut msg, CURRENT_VERSION as u64);
        msg.append("; upgrade Ordo, or move the database aside to start a new log");
        return Err(msg);
    }
    if recorded == 0 && has_runs {
        return Ok(Opened { version: 1, stamp: true });
    }
    Ok(Opened { version: recorded, stamp: false })
}

/// The versions a chain of `count` migrations leads through from version
/// `from`, each the version its migration leads to.
pub open spec fn steps_above(from: int, count: nat) -> Seq<i32>
    decreases count,
{
    if count == 0 || count <= from {
        Seq::empty()
    } else {
        steps_above(from, (count - 1) as nat).push(count as i32)
    }
}

/// Which migrations of a chain of `count` to run on a log of version `from`,
/// each by the version it leads to. Each is its own transaction, which ends by
/// recording that version.
pub fn apply(from: i32, count: i32) -> (r: Vec<i32>)
    requires
        0 <= count,
    ensures
        r@ == steps_above(from as int, count as nat),
{
    let mut steps: Vec<i32> = Vec::new();
    let mut i: i32 = 0;
    while i < count
        invariant
            0 <= i <= count,
            steps@ == steps_above(from as int, i as nat),
        decreases count - i,
    {
        let to: i32 = i + 1;
        if to > from {
            steps.push(to);
        } else {
            assert(steps@ =~= Seq::<i32>::empty()) by {
                lemma_no_steps(from as int, i as nat);
            }
        }
        i = to;
    }
    steps
}

proof fn lemma_no_steps(from: int, count: nat)
    requires
        count <= from,
    ensures
        steps_above(from, count) == Seq::<i32>::empty(),
{
}

/// Which migrations bring a log of version `from` to the current version.
pub fn migrate(from: i32) -> (r: Vec<i32>)
    ensures
        r@ == steps_above(from as int, CURRENT_VERSION as nat),
        from >= 2 ==> r@.len() == 0,
        from == 1 ==> r@ == seq![2i32],
        from <= 0 ==> r@ == seq![1i32, 2i32],
{
    proof {
        reveal_with_fuel(steps_above, 3);
    }
    apply(from, CURRENT_VERSION)
}

/// The columns migration 2 still has to add. It tolerates its work being done:
/// a log adopted at version 1 may or may not have grown them already, and
/// nothing recorded which.
pub open spec fn missing(present: Set<Column>) -> Seq<Column> {
    telemetry().filter(|c: Column| !present.contains(c))
}

/// Migration 2, given which of its columns the log already has.
pub fn m2_restack_telemetry(aborted: bool, ghost_pass: bool, via_event: bool) -> (r: Vec<Column>)
    ensures
        r@ == missing(
            Set::new(
                |c: Column|
                    match c {
                        Column::RestacksAborted => aborted,
                        Column::RestacksGhostPass => ghost_pass,
                        Column::RaisesViaEvent => via_event,
                    },
            ),
        ),
        r@.contains(Column::RestacksAborted) <==> !aborted,
        r@.contains(Column::RestacksGhostPass) <==> !ghost_pass,
        r@.contains(Column::RaisesViaEvent) <==> !via_event,
        r@.no_duplicates(),
{
    let mut add: Vec<Column> = Vec::new();
    if !aborted {
        add.push(Column::RestacksAborted);
    }
    if !ghost_pass {
        add.push(Column::RestacksGhostPass);
    }
    if !via_event {
        add.push(Column::RaisesViaEvent);
    }
    proof {
        let present = Set::new(
            |c: Column|
                match c {
                    Column::RestacksAborted => aborted,
                    Column::RestacksGhostPass => ghost_pass,
                    Column::RaisesViaEvent => via_event,
                },
        );
        let keep = |c: Column| !present.contains(c);
        let t = telemetry();
        reveal(Seq::filter);
        assert(t.drop_last() =~= seq![Column::RestacksAborted, Column::RestacksGhostPass]);
        assert(t.drop_last().drop_last() =~= seq![Column::RestacksAborted]);
        assert(t.drop_last().drop_last().drop_last() =~= Seq::<Column>::empty());
        reveal_with_fuel(Seq::filter, 4);
        assert(add@ =~= t.filter(keep));
        let second: int = if aborted {
            0
        } else {
            1
        };
        let third: int = if ghost_pass {
            second
        } else {
            second + 1
        };
        assert(!aborted ==> add@[0] == Column::RestacksAborted);
        assert(!ghost_pass ==> add@[second] == Column::RestacksGhostPass);
        assert(!via_event ==> add@[third] == Column::RaisesViaEvent);
    }
    add
}

/// Version 1: the schema as it first shipped. Frozen: a log that was created
/// with it is history.
pub const BASELINE: &'static str = "
CREATE TABLE runs (
    run_id       INTEGER PRIMARY KEY,
    started_wall INTEGER NOT NULL,
    ended_wall   INTEGER,
    version      TEXT NOT NULL,
    backend      TEXT NOT NULL
);
CREATE TABLE events (
    run_id  INTEGER NOT NULL REFERENCES runs(run_id) ON DELETE CASCADE,
    seq     INTEGER NOT NULL,
    wall_ms INTEGER NOT NULL,
    mono_ns INTEGER NOT NULL,
    kind    TEXT NOT NULL,
    payload TEXT NOT NULL,
    PRIMARY KEY (run_id, seq)
);
CREATE TABLE effects (
    run_id  INTEGER NOT NULL REFERENCES runs(run_id) ON DELETE CASCADE,
    seq     INTEGER NOT NULL,
    ord     INTEGER NOT NULL,
    op_id   INTEGER,
    kind    TEXT NOT NULL,
    payload TEXT NOT NULL,
    PRIMARY KEY (run_id, seq, ord)
);
CREATE TABLE notes (
    run_id  INTEGER NOT NULL REFERENCES runs(run_id) ON DELETE CASCADE,
    seq     INTEGER NOT NULL,
    ord     INTEGER NOT NULL,
    kind    TEXT NOT NULL,
    payload TEXT NOT NULL,
    PRIMARY KEY (run_id, seq, ord)
);
CREATE TABLE op_results (
    run_id  INTEGER NOT NULL REFERENCES runs(run_id) ON DELETE CASCADE,
    op_id   INTEGER NOT NULL,
    wall_ms INTEGER NOT NULL,
    outcome TEXT NOT NULL,
    detail  TEXT,
    PRIMARY KEY (run_id, op_id, wall_ms)
);
CREATE TABLE checkpoints (
    run_id  INTEGER NOT NULL REFERENCES runs(run_id) ON DELETE CASCADE,
    seq     INTEGER NOT NULL,
    payload TEXT NOT NULL,
    PRIMARY KEY (run_id, seq)
);
CREATE TABLE park_trace (
    run_id   INTEGER NOT NULL REFERENCES runs(run_id) ON DELETE CASCADE,
    wall_ms  INTEGER NOT NULL,
    window   INTEGER NOT NULL,
    kind     TEXT NOT NULL,
    payload  TEXT NOT NULL
);
CREATE INDEX park_trace_window ON park_trace (run_id, window, wall_ms);
CREATE TABLE restacks (
    restack_id       INTEGER PRIMARY KEY,
    run_id           INTEGER NOT NULL REFERENCES runs(run_id) ON DELETE CASCADE,
    wall_ms          INTEGER NOT NULL,
    total_ms         INTEGER NOT NULL,
    presence_wait_ms INTEGER NOT NULL,
    handoff_wait_ms  INTEGER NOT NULL,
    desired          INTEGER NOT NULL,
    missing          INTEGER NOT NULL,
    skipped_suffix   INTEGER NOT NULL,
    second_pass      INTEGER NOT NULL,
    converged        INTEGER NOT NULL
);
CREATE TABLE raises (
    restack_id  INTEGER NOT NULL REFERENCES restacks(restack_id) ON DELETE CASCADE,
    ord         INTEGER NOT NULL,
    window      INTEGER NOT NULL,
    pid         INTEGER NOT NULL,
    kind        TEXT NOT NULL,
    pass        INTEGER NOT NULL,
    above_scope INTEGER NOT NULL,
    above_all   INTEGER NOT NULL,
    wait_ms     INTEGER NOT NULL,
    timed_out   INTEGER NOT NULL,
    PRIMARY KEY (restack_id, ord)
);
CREATE INDEX events_by_time ON events(wall_ms);
CREATE INDEX events_by_kind ON events(run_id, kind);
";

/// Migration 1 creates every table and index of the baseline, unconditionally.
pub fn m1_baseline() -> (r: &'static str)
    ensures
        r@ == BASELINE@,
{
    BASELINE
}

/// Tables of telemetry that stand outside the chain: made where they are missing
/// whenever a log is opened, and never altered.
pub const TELEMETRY: &'static str = "
CREATE TABLE IF NOT EXISTS hotkey_batches (
    run_id         INTEGER NOT NULL REFERENCES runs(run_id) ON DELETE CASCADE,
    wall_ms        INTEGER NOT NULL,
    seq            INTEGER,
    presses        INTEGER NOT NULL,
    pumped         INTEGER NOT NULL,
    oldest_wait_ms INTEGER NOT NULL,
    newest_wait_ms INTEGER NOT NULL
);
CREATE TABLE IF NOT EXISTS snapshots (
    run_id      INTEGER NOT NULL REFERENCES runs(run_id) ON DELETE CASCADE,
    wall_ms     INTEGER NOT NULL,
    seq         INTEGER NOT NULL,
    total_ms    REAL NOT NULL,
    walk_ms     REAL NOT NULL,
    enforce_ms  REAL NOT NULL,
    apps        INTEGER NOT NULL,
    windows     INTEGER NOT NULL,
    slowest_pid INTEGER,
    slowest_ms  REAL
);
";

/// The statements that make the telemetry tables where they are missing.
pub fn telemetry_tables() -> (r: &'static str)
    ensures
        r@ == TELEMETRY@,
{
    TELEMETRY
}

/// The statement that ends a migration's transaction: the version is only true
/// once the work it describes has committed.
pub fn bump_sql(to: i32) -> (r: String)
    requires
        0 <= to,
    ensures
        r@ == "PRAGMA user_version = "@ + crate::text::decimal(to as nat) + ";"@,
{
    crate::text::around_number("PRAGMA user_version = ", to as u64, ";")
}

// --- what the chain makes of a log ----------------------------------------------

/// What a log's schema is, as far as the chain changes it.
#[verifier::ext_equal]
pub struct Catalog {
    /// The recorded version.
    pub version: int,
    /// The baseline's tables are there.
    pub baseline: bool,
    /// The telemetry columns that are there.
    pub columns: Set<Column>,
}

impl Catalog {
    /// An empty file.
    pub open spec fn empty() -> Catalog {
        Catalog { version: 0, baseline: false, columns: Set::empty() }
    }

    /// A log that the whole chain has run on.
    pub open spec fn current() -> Catalog {
        Catalog { version: CURRENT_VERSION as int, baseline: true, columns: Set::full() }
    }

    /// A log some build of the daemon can have left behind: an empty file; one
    /// from before there were versions, whatever columns it had grown by then;
    /// or one the chain has stopped at.
    pub open spec fn known(self) -> bool {
        ||| self == Catalog::empty()
        ||| (self.version == 0 && self.baseline)
        ||| (self.version == 1 && self.baseline)
        ||| self == Catalog::current()
    }

    /// The log after [`open_version`] has had its say.
    pub open spec fn opened(self) -> Catalog {
        Catalog { version: version_at(self.version, self.baseline), ..self }
    }

    /// Whether the migration to version `to` can run: the first creates tables
    /// that must not be there, the second alters tables that must.
    pub open spec fn admits(self, to: int) -> bool {
        if to == 1 {
            !self.baseline
        } else {
            self.baseline
        }
    }

    /// The log once the migration to version `to` has committed.
    pub open spec fn migrated(self, to: int) -> Catalog {
        Catalog {
            version: to,
            baseline: self.baseline || to == 1,
            columns: if to == 2 {
                self.columns.union(missing(self.columns).to_set())
            } else {
                self.columns
            },
        }
    }

    /// The log after these migrations, each committed in turn. One that fails
    /// changes nothing, so a chain that stops early is one with fewer of them.
    pub open spec fn after(self, steps: Seq<i32>) -> Catalog
        decreases steps.len(),
    {
        if steps.len() == 0 {
            self
        } else {
            self.after(steps.drop_last()).migrated(steps.last() as int)
        }
    }

    /// Every migration finds the schema it needs.
    pub open spec fn admits_all(self, steps: Seq<i32>) -> bool
        decreases steps.len(),
    {
        steps.len() == 0 || (self.admits_all(steps.drop_last()) && self.after(
            steps.drop_last(),
        ).admits(steps.last() as int))
    }
}

proof fn lemma_missing(present: Set<Column>)
    ensures
        present.union(missing(present).to_set()) == Set::<Column>::full(),
{
    let keep = |c: Column| !present.contains(c);
    let t = telemetry();
    broadcast use vstd::seq_lib::group_filter_ensures;

    assert forall|c: Column| present.union(missing(present).to_set()).contains(c) by {
        if !present.contains(c) {
            assert(t[0] == Column::RestacksAborted && t[1] == Column::RestacksGhostPass && t[2]
                == Column::RaisesViaEvent);
            assert(t.contains(c));
            assert(keep(c));
            assert(t.filter(keep).contains(c)) by {
                let i = choose|i: int| 0 <= i < t.len() && t[i] == c;
                t.lemma_filter_contains_rev(keep, c);
            }
        }
    }
    assert(present.union(missing(present).to_set()) =~= Set::<Column>::full());
}

proof fn lemma_steps(from: int, count: nat)
    requires
        0 <= from,
        count <= i32::MAX,
    ensures
        steps_above(from, count).len() == (if from < count {
            count - from
        } else {
            0
        }),
        forall|i: int|
            0 <= i < steps_above(from, count).len() ==> #[trigger] steps_above(from, count)[i]
                == from + i + 1,
    decreases count,
{
    if count > 0 && count > from {
        lemma_steps(from, (count - 1) as nat);
    }
}

/// Every upgrade path converges: whatever log the daemon finds, opening and
/// migrating it runs without a migration failing on its schema, and ends at the
/// current version with the same schema as a fresh one.
pub proof fn law_every_upgrade_converges(found: Catalog)
    requires
        found.known(),
    ensures
        ({
            let opened = found.opened();
            let steps = steps_above(opened.version, CURRENT_VERSION as nat);
            &&& opened.admits_all(steps)
            &&& opened.after(steps) == Catalog::current()
        }),
{
    let opened = found.opened();
    let steps = steps_above(opened.version, 2);
    lemma_steps(opened.version, 2);
    reveal_with_fuel(Catalog::after, 3);
    reveal_with_fuel(Catalog::admits_all, 3);
    lemma_missing(opened.columns);
    if opened.version == 0 {
        assert(steps.drop_last() =~= seq![1i32]);
        assert(steps.drop_last().drop_last() =~= Seq::<i32>::empty());
        assert(opened.after(steps) =~= Catalog::current());
    } else if opened.version == 1 {
        assert(steps.drop_last() =~= Seq::<i32>::empty());
        assert(opened.after(steps) =~= Catalog::current());
    }
}

/// A chain that stops, wherever it stops, leaves a log that the next open takes
/// up at exactly the step that failed: the steps still to run are those that had
/// not committed, and together they come to the whole chain.
pub proof fn law_interrupted_upgrade_resumes(from: int, count: nat, committed: int)
    requires
        0 <= from,
        count <= i32::MAX,
        0 <= committed <= steps_above(from, count).len(),
    ensures
        committed > 0 ==> steps_above(from, count)[committed - 1] == from + committed,
        steps_above(from + committed, count) == steps_above(from, count).skip(committed),
{
    lemma_steps(from, count);
    lemma_steps(from + committed, count);
    assert(steps_above(from + committed, count) =~= steps_above(from, count).skip(committed));
}

/// The migrations run in order and none is left out: the first leads one above
/// the version found, each one above the last, the final one to the version
/// aimed at. A log that is there already is left alone.
pub proof fn law_chain_is_gapless(from: int, count: nat, i: int)
    requires
        0 <= from,
        count <= i32::MAX,
        0 <= i < steps_above(from, count).len(),
    ensures
        steps_above(from, count)[i] == from + i + 1,
        steps_above(from, count).last() == count,
{
    lemma_steps(from, count);
}

/// Opening a log again applies nothing and changes nothing.
pub proof fn law_reopening_applies_nothing()
    ensures
        Catalog::current().opened() == Catalog::current(),
        steps_above(CURRENT_VERSION as int, CURRENT_VERSION as nat) == Seq::<i32>::empty(),
{
}

/// Migrating never takes a column or a table away.
pub proof fn law_migrating_keeps_what_is_there(found: Catalog, steps: Seq<i32>)
    ensures
        found.baseline ==> found.after(steps).baseline,
        found.columns.subset_of(found.after(steps).columns),
    decreases steps.len(),
{
    if steps.len() > 0 {
        law_migrating_keeps_what_is_there(found, steps.drop_last());
    }
}

/// From a version below the one aimed at there are as many migrations as
/// versions between, from one at or above it none, and from none at all the whole
/// chain.
pub proof fn law_as_many_migrations_as_versions(from: int, count: nat)
    requires
        count <= i32::MAX,
    ensures
        0 <= from <= count ==> steps_above(from, count).len() == count - from,
        from >= count ==> steps_above(from, count).len() == 0,
        from <= 0 ==> steps_above(from, count) == steps_above(0, count),
    decreases count,
{
    if from >= 0 {
        lemma_steps(from, count);
    } else if count > 0 {
        law_as_many_migrations_as_versions(from, (count - 1) as nat);
    }
}

/// A column is added exactly if it is missing.
pub proof fn law_only_missing_columns_are_added(present: Set<Column>, column: Column)
    ensures
        missing(present).contains(column) <==> !present.contains(column),
{
    lemma_missing(present);
    assert(present.union(missing(present).to_set()).contains(column));
    let keep = |c: Column| !present.contains(c);
    if missing(present).contains(column) {
        let i = choose|i: int| 0 <= i < missing(present).len() && missing(present)[i] == column;
        telemetry().lemma_filter_pred(keep, i);
        assert(keep(telemetry().filter(keep)[i]));
    }
}

/// Only a log that has tables and no version is taken to be of the first version;
/// every other is of the version it records.
pub proof fn law_unversioned_logs_are_of_the_first_version(recorded: int, has_runs: bool)
    ensures
        version_at(0, true) == 1,
        version_at(0, false) == 0,
        recorded != 0 ==> version_at(recorded, has_runs) == recorded,
{
}

/// No two of the columns are added by the same words.
pub proof fn law_columns_are_told_apart(a: Column, b: Column)
    ensures
        a.name_word() == b.name_word() <==> a == b,
        a.table_word() == "raises"@ <==> a is RaisesViaEvent,
        a.table_word() == "restacks"@ <==> a !is RaisesViaEvent,
{
    reveal_strlit("aborted");
    reveal_strlit("ghost_pass");
    reveal_strlit("via_event");
    reveal_strlit("raises");
    reveal_strlit("restacks");
    assert("aborted"@.len() == 7 && "ghost_pass"@.len() == 10 && "via_event"@.len() == 9);
    assert("raises"@.len() == 6 && "restacks"@.len() == 8);
}

/// A refusal names the version found and the one understood.
pub proof fn law_refusals_name_both_versions(recorded: int)
    requires
        recorded >= 0,
    ensures
        refusal(recorded) == "log db is schema v"@ + crate::text::decimal(recorded as nat)
            + ", but this Ordo understands v"@ + crate::text::decimal(2)
            + "; upgrade Ordo, or move the database aside to start a new log"@,
{
}

} // verus!
