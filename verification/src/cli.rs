//! The command line: what a run is called, what it says, and what a replay
//! reports.

use crate::engine::Msg;
use crate::logger::joined_path;
use crate::replay::ReplayReport;
use crate::text::{
    around_number, decimal, number_in, owned, push_decimal, push_signed, read_number, signed, trim,
    trimmed,
};
use crate::vocab::RescanTrigger;
use vstd::prelude::*;

verus! {

/// The workspace mechanism a run uses.
#[derive(Clone, Copy, Debug, PartialEq, Eq, Structural)]
pub enum Backend {
    Native,
    Emulated,
}

/// What the log calls the backend of a run.
pub fn backend_label(backend: Backend, observe: bool) -> (r: &'static str)
    ensures
        r@ == (match (backend, observe) {
            (Backend::Native, false) => "native"@,
            (Backend::Native, true) => "native(observe)"@,
            (Backend::Emulated, false) => "emulated"@,
            (Backend::Emulated, true) => "emulated(observe)"@,
        }),
{
    match backend {
        Backend::Native => if observe {
            "native(observe)"
        } else {
            "native"
        },
        Backend::Emulated => if observe {
            "emulated(observe)"
        } else {
            "emulated"
        },
    }
}

/// How a run starts.
#[derive(Debug)]
pub struct Start {
    /// The tap and the observer run. They do even when paused: the tap is what
    /// hears the chord that engages.
    pub listens: bool,
    /// Keys are intercepted from the start.
    pub intercepting: bool,
    /// What the engine is sent first.
    pub first: Option<Msg>,
}

/// Decide how a run starts. A paused one is born rescued, by way of a logged
/// event, so that a replay reproduces the pause.
pub fn start(observe: bool, paused: bool) -> (r: Start)
    ensures
        r == (Start {
            listens: !observe,
            intercepting: !observe && !paused,
            first: if paused {
                Some(Msg::Rescue)
            } else {
                None
            },
        }),
{
    Start {
        listens: !observe,
        intercepting: !observe && !paused,
        first: if paused {
            Some(Msg::Rescue)
        } else {
            None
        },
    }
}

/// What a run says of itself, line by line.
pub open spec fn banner_lines(observe: bool, paused: bool, path: Seq<char>) -> Seq<Seq<char>> {
    let head = if observe {
        seq!["ordo: observe-only. Logging to "@ + path]
    } else {
        seq![
            (if paused {
                "ordo: paused (disengaged). Logging to "@
            } else {
                "ordo: active. Logging to "@
            }) + path,
            "ordo: rescue (off) = Ctrl+Alt+Cmd+Escape pressed twice within 2s."@,
            "ordo: engage (on)  = Ctrl+Alt+Cmd+O."@,
        ]
    };
    head + seq![
        "ordo: requires Accessibility permission (System Settings > Privacy & Security > Accessibility)."@,
        "ordo: press Ctrl-C to stop."@,
    ]
}

/// What a run says of itself.
pub fn banner(observe: bool, paused: bool, path: &str) -> (r: Vec<String>)
    ensures
        crate::text::texts(r@) == banner_lines(observe, paused, path@),
        r@.len() == (if observe {
            3int
        } else {
            5
        }),
        observe ==> r@[0]@ == "ordo: observe-only. Logging to "@ + path@,
        !observe && paused ==> r@[0]@ == "ordo: paused (disengaged). Logging to "@ + path@,
        !observe && !paused ==> r@[0]@ == "ordo: active. Logging to "@ + path@,
{
    let mut lines: Vec<String> = Vec::new();
    if observe {
        let mut head = owned("ordo: observe-only. Logging to ");
        head.append(path);
        lines.push(head);
    } else {
        let mut head = if paused {
            owned("ordo: paused (disengaged). Logging to ")
        } else {
            owned("ordo: active. Logging to ")
        };
        head.append(path);
        lines.push(head);
        lines.push(owned("ordo: rescue (off) = Ctrl+Alt+Cmd+Escape pressed twice within 2s."));
        lines.push(owned("ordo: engage (on)  = Ctrl+Alt+Cmd+O."));
    }
    lines.push(
        owned(
            "ordo: requires Accessibility permission (System Settings > Privacy & Security > Accessibility).",
        ),
    );
    lines.push(owned("ordo: press Ctrl-C to stop."));
    assert(crate::text::texts(lines@) =~= banner_lines(observe, paused, path@));
    lines
}

/// What one turn of the main loop does.
#[derive(Debug)]
pub enum Turn {
    /// Send these, and switch interception off first if so told; then wait for
    /// the interval.
    Go { disengage: bool, messages: Vec<Msg> },
    /// Tell the engine to shut down and wait for it.
    Stop,
}

/// One turn of the main loop. A rescue that was asked for from outside takes
/// effect at once, as the chord does.
pub fn turn(stop: bool, rescue_requested: bool) -> (r: Turn)
    ensures
        stop ==> r is Stop,
        !stop ==> (r matches Turn::Go { disengage, messages } && disengage == rescue_requested
            && messages@ == (if rescue_requested {
            seq![Msg::Rescue, Msg::Rescan(RescanTrigger::Periodic)]
        } else {
            seq![Msg::Rescan(RescanTrigger::Periodic)]
        })),
{
    if stop {
        return Turn::Stop;
    }
    let mut messages: Vec<Msg> = Vec::new();
    if rescue_requested {
        messages.push(Msg::Rescue);
    }
    messages.push(Msg::Rescan(RescanTrigger::Periodic));
    assert(messages@ =~= (if rescue_requested {
        seq![Msg::Rescue, Msg::Rescan(RescanTrigger::Periodic)]
    } else {
        seq![Msg::Rescan(RescanTrigger::Periodic)]
    }));
    Turn::Go { disengage: rescue_requested, messages }
}

/// Where a run writes its process number: beside the log, in `dir`.
pub fn pid_path(dir: Option<&str>) -> (r: String)
    ensures
        r@ == joined_path(
            (match dir {
                Some(d) => d@,
                None => "."@,
            }),
            "ordo.pid"@,
        ),
{
    let base = match dir {
        Some(d) => owned(d),
        None => owned("."),
    };
    crate::logger::join_path(base, "ordo.pid")
}

/// The process number that was written down, whatever white space stands around
/// it; `None` if it cannot be read.
pub fn pid_in(written: &str) -> (r: Option<i32>)
    ensures
        r == number_in(trimmed(written@)),
{
    read_number(trim(written))
}

/// Which run to replay: the one asked for, else the latest.
pub fn choose_run(asked: Option<i64>, latest: Option<i64>) -> (r: Option<i64>)
    ensures
        r == (if asked is Some {
            asked
        } else {
            latest
        }),
{
    match asked {
        Some(run) => Some(run),
        None => latest,
    }
}

/// What a replay says of one mismatch.
pub open spec fn mismatch_line(seq: nat, logged: nat, recomputed: nat) -> Seq<char> {
    "  seq "@ + decimal(seq) + ": logged "@ + decimal(logged) + " effect(s), recomputed "@ + decimal(
        recomputed,
    )
}

/// What a replay says, line by line.
pub open spec fn replay_lines(r: ReplayReport) -> Seq<Seq<char>> {
    let head = "ordo: replayed run "@ + signed(r.run_id as int) + " ("@ + decimal(
        r.events_replayed as nat,
    ) + " events from seq "@ + decimal(r.from_seq as nat) + ")"@;
    if r.mismatches@.len() == 0 {
        seq![head, "ordo: clean — the core reproduced every logged effect."@]
    } else {
        seq![head, "ordo: "@ + decimal(r.mismatches@.len()) + " divergence(s):"@]
            + r.mismatches@.map_values(
            |m: crate::replay::Mismatch|
                mismatch_line(m.seq as nat, m.logged@.len(), m.recomputed@.len()),
        )
    }
}

/// What a replay says.
pub fn report_lines(r: &ReplayReport) -> (lines: Vec<String>)
    ensures
        crate::text::texts(lines@) == replay_lines(*r),
        lines@.len() == 2 + r.mismatches@.len(),
{
    let mut lines: Vec<String> = Vec::new();
    let mut head = owned("ordo: replayed run ");
    push_signed(&mut head, r.run_id);
    head.append(" (");
    push_decimal(&mut head, r.events_replayed as u64);
    head.append(" events from seq ");
    push_decimal(&mut head, r.from_seq);
    head.append(")");
    lines.push(head);
    if r.is_clean() {
        lines.push(owned("ordo: clean — the core reproduced every logged effect."));
        assert(crate::text::texts(lines@) =~= replay_lines(*r));
        return lines;
    }
    lines.push(around_number("ordo: ", r.mismatches.len() as u64, " divergence(s):"));
    let ghost start = crate::text::texts(lines@);
    let ghost say = |m: crate::replay::Mismatch|
        mismatch_line(m.seq as nat, m.logged@.len(), m.recomputed@.len());
    assert(start =~= start + r.mismatches@.take(0).map_values(say));
    for i in 0..r.mismatches.len()
        invariant
            say == (|m: crate::replay::Mismatch|
                mismatch_line(m.seq as nat, m.logged@.len(), m.recomputed@.len())),
            crate::text::texts(lines@) == start + r.mismatches@.take(i as int).map_values(say),
    {
        let ghost before = lines@;
        let m = &r.mismatches[i];
        let mut line = around_number("  seq ", m.seq, ": logged ");
        push_decimal(&mut line, m.logged.len() as u64);
        line.append(" effect(s), recomputed ");
        push_decimal(&mut line, m.recomputed.len() as u64);
        assert(line@ == say(*m));
        lines.push(line);
        assert(crate::text::texts(lines@) =~= crate::text::texts(before).push(say(*m)));
        assert(r.mismatches@.take(i + 1).map_values(say) =~= r.mismatches@.take(i as int).map_values(
            say,
        ).push(say(*m)));
    }
    assert(r.mismatches@.take(r.mismatches@.len() as int) =~= r.mismatches@);
    lines
}

/// The exit status of a replay that ran: 2 for one that diverged.
pub fn exit_code(r: &ReplayReport) -> (code: i32)
    ensures
        code == (if r.mismatches@.len() == 0 {
            0int
        } else {
            2
        }),
{
    if r.is_clean() {
        0
    } else {
        2
    }
}

/// A run says where it logs and whether it observes, is paused or is active;
/// unless it only observes, it says how to switch it off and on; and always what
/// it needs and how to stop it.
pub proof fn law_a_run_says_what_it_is(observe: bool, paused: bool, path: Seq<char>)
    ensures
        ({
            let lines = banner_lines(observe, paused, path);
            let n = lines.len();
            &&& n == (if observe {
                3int
            } else {
                5
            })
            &&& observe ==> lines[0] == "ordo: observe-only. Logging to "@ + path
            &&& !observe && paused ==> lines[0] == "ordo: paused (disengaged). Logging to "@ + path
            &&& !observe && !paused ==> lines[0] == "ordo: active. Logging to "@ + path
            &&& !observe ==> lines[1]
                == "ordo: rescue (off) = Ctrl+Alt+Cmd+Escape pressed twice within 2s."@
            &&& !observe ==> lines[2] == "ordo: engage (on)  = Ctrl+Alt+Cmd+O."@
            &&& lines[n - 2]
                == "ordo: requires Accessibility permission (System Settings > Privacy & Security > Accessibility)."@
            &&& lines[n - 1] == "ordo: press Ctrl-C to stop."@
        }),
{
}

/// A replay names its run, how much was replayed and from where. It is called
/// clean exactly if nothing differed; else every difference has its line, in
/// order, with its own place and its own two counts.
pub proof fn law_a_replay_says_what_differed(r: ReplayReport, i: int)
    ensures
        ({
            let lines = replay_lines(r);
            let n = r.mismatches@.len();
            &&& lines.len() == 2 + n
            &&& lines[0] == "ordo: replayed run "@ + signed(r.run_id as int) + " ("@ + decimal(
                r.events_replayed as nat,
            ) + " events from seq "@ + decimal(r.from_seq as nat) + ")"@
            &&& n == 0 ==> lines[1] == "ordo: clean — the core reproduced every logged effect."@
            &&& n > 0 ==> lines[1] == "ordo: "@ + decimal(n) + " divergence(s):"@
            &&& 0 <= i < n ==> lines[2 + i] == "  seq "@ + decimal(r.mismatches@[i].seq as nat)
                + ": logged "@ + decimal(r.mismatches@[i].logged@.len())
                + " effect(s), recomputed "@ + decimal(r.mismatches@[i].recomputed@.len())
        }),
{
}

} // verus!
