//! The schema chain, driven against a real database.

use ordo::logger::{plan_opening, OpenStep};
use ordo::schema::{self, Column, BASELINE, CURRENT_VERSION};
use rusqlite::{Connection, Transaction};

/// What the build before versions wrote, its three later columns already added.
/// A fact about logs on real machines: never edit it.
const SHIPPED_UNVERSIONED: &str = r#"
CREATE TABLE runs (
    run_id       INTEGER PRIMARY KEY,
    started_wall INTEGER NOT NULL,
    ended_wall   INTEGER,
    version      TEXT NOT NULL,
    backend      TEXT NOT NULL
);
CREATE TABLE events (
    run_id  INTEGER NOT NULL REFERENCES runs(run_id) ON DELETE CASCADE,
    seq     INTEGER NOT NULL,
    wall_ms INTEGER NOT NULL,
    mono_ns INTEGER NOT NULL,
    kind    TEXT NOT NULL,
    payload TEXT NOT NULL,
    PRIMARY KEY (run_id, seq)
);
CREATE TABLE effects (
    run_id  INTEGER NOT NULL REFERENCES runs(run_id) ON DELETE CASCADE,
    seq     INTEGER NOT NULL,
    ord     INTEGER NOT NULL,
    op_id   INTEGER,
    kind    TEXT NOT NULL,
    payload TEXT NOT NULL,
    PRIMARY KEY (run_id, seq, ord)
);
CREATE TABLE notes (
    run_id  INTEGER NOT NULL REFERENCES runs(run_id) ON DELETE CASCADE,
    seq     INTEGER NOT NULL,
    ord     INTEGER NOT NULL,
    kind    TEXT NOT NULL,
    payload TEXT NOT NULL,
    PRIMARY KEY (run_id, seq, ord)
);
CREATE TABLE op_results (
    run_id  INTEGER NOT NULL REFERENCES runs(run_id) ON DELETE CASCADE,
    op_id   INTEGER NOT NULL,
    wall_ms INTEGER NOT NULL,
    outcome TEXT NOT NULL,
    detail  TEXT,
    PRIMARY KEY (run_id, op_id, wall_ms)
);
CREATE TABLE checkpoints (
    run_id  INTEGER NOT NULL REFERENCES runs(run_id) ON DELETE CASCADE,
    seq     INTEGER NOT NULL,
    payload TEXT NOT NULL,
    PRIMARY KEY (run_id, seq)
);
CREATE TABLE park_trace (
    run_id   INTEGER NOT NULL REFERENCES runs(run_id) ON DELETE CASCADE,
    wall_ms  INTEGER NOT NULL,
    window   INTEGER NOT NULL,
    kind     TEXT NOT NULL,
    payload  TEXT NOT NULL
);
CREATE INDEX park_trace_window ON park_trace (run_id, window, wall_ms);
CREATE TABLE restacks (
    restack_id       INTEGER PRIMARY KEY,
    run_id           INTEGER NOT NULL REFERENCES runs(run_id) ON DELETE CASCADE,
    wall_ms          INTEGER NOT NULL,
    total_ms         INTEGER NOT NULL,
    presence_wait_ms INTEGER NOT NULL,
    handoff_wait_ms  INTEGER NOT NULL,
    desired          INTEGER NOT NULL,
    missing          INTEGER NOT NULL,
    skipped_suffix   INTEGER NOT NULL,
    second_pass      INTEGER NOT NULL,
    converged        INTEGER NOT NULL,
    aborted          INTEGER NOT NULL DEFAULT 0,
    ghost_pass       INTEGER NOT NULL DEFAULT 0
);
CREATE TABLE raises (
    restack_id  INTEGER NOT NULL REFERENCES restacks(restack_id) ON DELETE CASCADE,
    ord         INTEGER NOT NULL,
    window      INTEGER NOT NULL,
    pid         INTEGER NOT NULL,
    kind        TEXT NOT NULL,
    pass        INTEGER NOT NULL,
    above_scope INTEGER NOT NULL,
    above_all   INTEGER NOT NULL,
    wait_ms     INTEGER NOT NULL,
    timed_out   INTEGER NOT NULL,
    via_event   INTEGER NOT NULL DEFAULT 0,
    PRIMARY KEY (restack_id, ord)
);
CREATE INDEX events_by_time ON events(wall_ms);
CREATE INDEX events_by_kind ON events(run_id, kind);
"#;

type Migration = fn(&Transaction) -> rusqlite::Result<()>;

fn has_runs(conn: &Connection) -> bool {
    conn.prepare("SELECT 1 FROM sqlite_master WHERE type = 'table' AND name = 'runs'")
        .unwrap()
        .exists([])
        .unwrap()
}

fn open_version(conn: &Connection) -> Result<i32, String> {
    let opened = schema::open_version(version(conn), has_runs(conn))?;
    if opened.stamp {
        conn.pragma_update(None, "user_version", opened.version).unwrap();
    }
    Ok(opened.version)
}

fn m1(tx: &Transaction) -> rusqlite::Result<()> {
    tx.execute_batch(schema::m1_baseline())
}

fn m2(tx: &Transaction) -> rusqlite::Result<()> {
    let has = |c: Column| tx.prepare(&c.exists_sql()).unwrap().exists([]).unwrap();
    let missing = schema::m2_restack_telemetry(
        has(Column::RestacksAborted),
        has(Column::RestacksGhostPass),
        has(Column::RaisesViaEvent),
    );
    for column in missing {
        tx.execute_batch(&column.add_sql())?;
    }
    Ok(())
}

fn step(conn: &Connection, to: i32, migration: Migration) -> rusqlite::Result<()> {
    let tx = conn.unchecked_transaction()?;
    migration(&tx)?;
    tx.execute_batch(&schema::bump_sql(to))?;
    tx.commit()
}

fn apply(conn: &Connection, from: i32, migrations: &[Migration]) -> rusqlite::Result<()> {
    for to in schema::apply(from, migrations.len() as i32) {
        step(conn, to, migrations[to as usize - 1])?;
    }
    Ok(())
}

fn migrate(conn: &Connection, from: i32) -> rusqlite::Result<()> {
    let chain: [Migration; 2] = [m1, m2];
    for to in schema::migrate(from) {
        step(conn, to, chain[to as usize - 1])?;
    }
    Ok(())
}

/// Opens a log the way the daemon does, and gives the run's number.
fn open_log(conn: &Connection, now_wall_ms: i64) -> Result<i64, String> {
    conn.pragma_update(None, "foreign_keys", "ON").unwrap();
    let chain: [Migration; 2] = [m1, m2];
    for s in plan_opening(version(conn), has_runs(conn), now_wall_ms)? {
        match s {
            OpenStep::Stamp(v) => conn.pragma_update(None, "user_version", v).unwrap(),
            OpenStep::Prune(cutoff) => {
                conn.execute("DELETE FROM runs WHERE started_wall < ?1", [cutoff]).unwrap();
            }
            OpenStep::Migrate(to) => step(conn, to, chain[to as usize - 1]).unwrap(),
            OpenStep::BeginRun(at) => {
                conn.execute(
                    "INSERT INTO runs (started_wall, version, backend) VALUES (?1, 'test', 'native')",
                    [at],
                )
                .unwrap();
            }
        }
    }
    Ok(conn.last_insert_rowid())
}

fn upgraded(ddl: &str) -> Connection {
    let conn = Connection::open_in_memory().unwrap();
    conn.execute_batch(ddl).unwrap();
    let from = open_version(&conn).unwrap();
    migrate(&conn, from).unwrap();
    conn
}

fn count(conn: &Connection, sql: &str) -> i64 {
    conn.query_row(sql, [], |r| r.get(0)).unwrap()
}

fn version(conn: &Connection) -> i32 {
    conn.query_row("PRAGMA user_version", [], |r| r.get(0))
        .unwrap()
}

fn columns(conn: &Connection, table: &str) -> Vec<String> {
    let mut stmt = conn
        .prepare(&format!("SELECT name FROM pragma_table_info('{table}')"))
        .unwrap();
    let mut cols: Vec<String> = stmt
        .query_map([], |r| r.get(0))
        .unwrap()
        .map(Result::unwrap)
        .collect();
    cols.sort();
    cols
}

/// What the schema *is*, as opposed to how it was written down. Column
/// facts rather than `sqlite_master` text, because a table that reached its
/// shape by `ALTER` stores different DDL than one created with the columns
/// inline while being the same schema — comparing the text would fail the
/// two databases this scheme exists to reconcile. Ordinal position is left
/// out for the same reason: the logger names every column in its SQL, so
/// position is not something worth ossifying.
fn fingerprint(conn: &Connection) -> Vec<String> {
    let mut objects: Vec<(String, String, String)> = conn
        .prepare(
            "SELECT type, name, tbl_name FROM sqlite_master
             WHERE name NOT LIKE 'sqlite_%' ORDER BY type, name",
        )
        .unwrap()
        .query_map([], |r| Ok((r.get(0)?, r.get(1)?, r.get(2)?)))
        .unwrap()
        .map(Result::unwrap)
        .collect();
    objects.sort();

    let mut out = Vec::new();
    for (kind, name, tbl) in objects {
        match kind.as_str() {
            "table" => {
                let mut stmt = conn
                    .prepare(&format!(
                        "SELECT name, type, \"notnull\", ifnull(dflt_value, ''), pk
                         FROM pragma_table_info('{name}') ORDER BY name"
                    ))
                    .unwrap();
                let mut cols: Vec<String> = stmt
                    .query_map([], |r| {
                        Ok(format!(
                            "{name}.{} {} notnull={} dflt={} pk={}",
                            r.get::<_, String>(0)?,
                            r.get::<_, String>(1)?,
                            r.get::<_, i64>(2)?,
                            r.get::<_, String>(3)?,
                            r.get::<_, i64>(4)?,
                        ))
                    })
                    .unwrap()
                    .map(Result::unwrap)
                    .collect();
                cols.sort();
                out.extend(cols);
            }
            "index" => {
                let cols: Vec<String> = conn
                    .prepare(&format!("SELECT name FROM pragma_index_info('{name}')"))
                    .unwrap()
                    .query_map([], |r| r.get(0))
                    .unwrap()
                    .map(Result::unwrap)
                    .collect();
                out.push(format!("index {name} on {tbl}({})", cols.join(",")));
            }
            other => out.push(format!("{other} {name}")),
        }
    }
    out
}
#[test]
fn a_fresh_database_ends_at_the_current_version_with_the_whole_schema() {
    let conn = upgraded("");

    assert_eq!(version(&conn), CURRENT_VERSION);
    for table in [
        "runs",
        "events",
        "effects",
        "notes",
        "op_results",
        "checkpoints",
        "park_trace",
        "restacks",
        "raises",
    ] {
        assert!(!columns(&conn, table).is_empty(), "{table} missing");
    }
    assert!(columns(&conn, "restacks").contains(&"aborted".to_string()));
    assert!(columns(&conn, "restacks").contains(&"ghost_pass".to_string()));
    assert!(columns(&conn, "raises").contains(&"via_event".to_string()));
}

#[test]
fn a_pre_column_database_gains_the_columns_and_keeps_its_rows() {
    let conn = Connection::open_in_memory().unwrap();
    conn.execute_batch(BASELINE).unwrap();
    conn.execute(
        "INSERT INTO runs (run_id, started_wall, version, backend)
         VALUES (7, 1000, 'old', 'native')",
        [],
    )
    .unwrap();
    conn.execute(
        "INSERT INTO restacks (restack_id, run_id, wall_ms, total_ms, presence_wait_ms,
             handoff_wait_ms, desired, missing, skipped_suffix, second_pass, converged)
         VALUES (1, 7, 1000, 5, 0, 0, 3, 0, 0, 0, 1)",
        [],
    )
    .unwrap();

    let from = open_version(&conn).unwrap();
    migrate(&conn, from).unwrap();

    assert_eq!(version(&conn), CURRENT_VERSION);
    // The row survives, and the new columns take their default.
    let (run_id, aborted, ghost): (i64, i64, i64) = conn
        .query_row(
            "SELECT run_id, aborted, ghost_pass FROM restacks WHERE restack_id = 1",
            [],
            |r| Ok((r.get(0)?, r.get(1)?, r.get(2)?)),
        )
        .unwrap();
    assert_eq!((run_id, aborted, ghost), (7, 0, 0));
    assert_eq!(
        conn.query_row("SELECT COUNT(*) FROM runs", [], |r| r.get::<_, i64>(0))
            .unwrap(),
        1
    );
}

#[test]
fn a_shipped_unversioned_database_upgrades_without_re_adding_its_columns() {
    let conn = upgraded(SHIPPED_UNVERSIONED);

    assert_eq!(version(&conn), CURRENT_VERSION);
    let restacks = columns(&conn, "restacks");
    assert_eq!(restacks.iter().filter(|c| *c == "aborted").count(), 1);
    assert_eq!(restacks.iter().filter(|c| *c == "ghost_pass").count(), 1);
    assert_eq!(
        columns(&conn, "raises")
            .iter()
            .filter(|c| *c == "via_event")
            .count(),
        1
    );
}

#[test]
fn every_upgrade_path_converges_on_the_same_schema() {
    let fresh = fingerprint(&upgraded(""));
    assert_eq!(
        fingerprint(&upgraded(BASELINE)),
        fresh,
        "pre-column upgrade"
    );
    assert_eq!(
        fingerprint(&upgraded(SHIPPED_UNVERSIONED)),
        fresh,
        "shipped-unversioned upgrade"
    );
}

#[test]
fn a_migration_that_fails_leaves_neither_its_work_nor_its_version() {
    fn adds_a_table(tx: &Transaction) -> rusqlite::Result<()> {
        tx.execute_batch("CREATE TABLE later (x INTEGER);")
    }
    fn adds_a_table_then_fails(tx: &Transaction) -> rusqlite::Result<()> {
        adds_a_table(tx)?;
        tx.execute_batch("SELECT malformed syntax here")
    }

    let conn = Connection::open_in_memory().unwrap();
    assert!(apply(&conn, 0, &[m1, adds_a_table_then_fails]).is_err());
    assert_eq!(version(&conn), 1, "step 1 stands, step 2 does not");
    assert!(
        columns(&conn, "later").is_empty(),
        "step 2 rolled back whole"
    );

    // The retry resumes at step 2 — it does not re-run the baseline, which
    // would fail on tables that already exist.
    apply(&conn, version(&conn), &[m1, adds_a_table]).unwrap();
    assert_eq!(version(&conn), 2);
    assert_eq!(columns(&conn, "later"), vec!["x".to_string()]);
}

#[test]
fn a_database_from_a_newer_ordo_is_refused() {
    let conn = Connection::open_in_memory().unwrap();
    conn.execute_batch(SHIPPED_UNVERSIONED).unwrap();
    conn.pragma_update(None, "user_version", CURRENT_VERSION + 1)
        .unwrap();

    let msg = match open_log(&conn, 1_000) {
        Ok(_) => panic!("a newer log db was opened read-write"),
        Err(e) => e,
    };
    assert!(
        msg.contains(&format!("v{}", CURRENT_VERSION + 1))
            && msg.contains(&format!("v{CURRENT_VERSION}")),
        "unhelpful downgrade error: {msg}"
    );
    assert_eq!(
        msg,
        "log db is schema v3, but this Ordo understands v2; upgrade Ordo, or move the database aside to start a new log"
    );
}

#[test]
fn re_opening_a_log_applies_nothing() {
    let conn = Connection::open_in_memory().unwrap();
    open_log(&conn, 1_000).unwrap();
    assert_eq!(version(&conn), CURRENT_VERSION);
    let before = fingerprint(&conn);
    open_log(&conn, 2_000).unwrap();
    assert_eq!(version(&conn), CURRENT_VERSION);
    assert_eq!(fingerprint(&conn), before);
    // Both runs are on record: the second open added to the log, it did not
    // start it over.
    assert_eq!(count(&conn, "SELECT COUNT(*) FROM runs"), 2);
}

#[test]
fn opening_an_unversioned_log_prunes_and_migrates_together() {
    let conn = Connection::open_in_memory().unwrap();
    conn.execute_batch(BASELINE).unwrap();
    conn.execute_batch(
        "INSERT INTO runs (run_id, started_wall, version, backend) VALUES (1, 0, 'ancient', 'native');
         INSERT INTO events (run_id, seq, wall_ms, mono_ns, kind, payload) VALUES (1, 0, 0, 0, 'engaged', '{}');",
    )
    .unwrap();

    let thirty_days_ms = 30i64 * 24 * 60 * 60 * 1000;
    let run_id = open_log(&conn, thirty_days_ms).unwrap();
    assert_eq!(version(&conn), CURRENT_VERSION);
    assert_eq!(
        count(&conn, "SELECT started_wall FROM runs WHERE run_id IN (SELECT MAX(run_id) FROM runs)"),
        thirty_days_ms,
        "the ancient run was pruned"
    );
    assert_eq!(count(&conn, "SELECT COUNT(*) FROM runs"), 1);
    assert_eq!(count(&conn, "SELECT MAX(run_id) FROM runs"), run_id);
    assert_eq!(count(&conn, "SELECT COUNT(*) FROM events"), 0, "its events went with it");
}

#[test]
fn retention_prunes_runs_older_than_the_window() {
    let conn = Connection::open_in_memory().unwrap();
    open_log(&conn, 0).unwrap();
    let thirty_days_ms = 30i64 * 24 * 60 * 60 * 1000;
    open_log(&conn, thirty_days_ms).unwrap();
    // Only the fresh run survives.
    assert_eq!(count(&conn, "SELECT COUNT(*) FROM runs"), 1);
    // A run of exactly two weeks ago is kept.
    let fourteen_days_ms = 14i64 * 24 * 60 * 60 * 1000;
    open_log(&conn, thirty_days_ms + fourteen_days_ms).unwrap();
    assert_eq!(count(&conn, "SELECT COUNT(*) FROM runs"), 2);
}

#[test]
fn an_opening_is_planned_in_order() {
    let two_weeks = 1_209_600_000;
    assert_eq!(
        plan_opening(0, false, 7).unwrap(),
        [OpenStep::Migrate(1), OpenStep::Migrate(2), OpenStep::BeginRun(7)]
    );
    assert_eq!(
        plan_opening(0, true, two_weeks).unwrap(),
        [OpenStep::Stamp(1), OpenStep::Prune(0), OpenStep::Migrate(2), OpenStep::BeginRun(two_weeks)]
    );
    assert_eq!(
        plan_opening(2, true, two_weeks).unwrap(),
        [OpenStep::Prune(0), OpenStep::BeginRun(two_weeks)]
    );
    assert!(plan_opening(3, true, 0).is_err());
}

#[test]
fn telemetry_tables_are_made_where_they_are_missing() {
    let conn = upgraded("");
    for _ in 0..2 {
        conn.execute_batch(schema::telemetry_tables()).unwrap();
    }
    assert_eq!(
        columns(&conn, "hotkey_batches"),
        ["newest_wait_ms", "oldest_wait_ms", "presses", "pumped", "run_id", "seq", "wall_ms"]
    );
    assert_eq!(
        columns(&conn, "snapshots"),
        [
            "apps",
            "enforce_ms",
            "run_id",
            "seq",
            "slowest_ms",
            "slowest_pid",
            "total_ms",
            "walk_ms",
            "wall_ms",
            "windows"
        ]
    );
    assert_eq!(version(&conn), CURRENT_VERSION);
}
