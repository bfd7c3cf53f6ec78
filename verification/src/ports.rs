//! The seams between the engine and the outside world, and what crosses them
//! beside events and effects: timing telemetry.

use crate::engine::{Event, Step};
use crate::logger::HotkeyBatch;
use crate::vocab::{Effect, OpId, OpOutcome, Pid, WindowId};
use vstd::prelude::*;

verus! {

/// Something an effector is asked to do, and what it answered.
pub enum Deed {
    Execute { effect: Effect, outcome: Option<OpOutcome> },
    BringUp { use_state: bool },
    Persist,
}

/// Carries out an effect against the desktop.
///
/// The returned outcome is the executor's own view of the attempt, never a
/// claim about the resulting world, which only the next observation confirms.
/// `None` means there is nothing to report.
pub trait Effector: Sized {
    /// Doing this may turn the effector into `after`. An effector that says
    /// nothing of itself promises nothing.
    open spec fn does(self, deed: Deed, after: Self) -> bool {
        true
    }

    fn execute(&mut self, effect: &Effect) -> (r: Option<OpOutcome>)
        ensures
            old(self).does(Deed::Execute { effect: *effect, outcome: r }, *final(self)),
    ;

    /// Come alive: with the saved workspaces, or with none.
    fn bring_up_workspaces(&mut self, use_state: bool)
        ensures
            old(self).does(Deed::BringUp { use_state }, *final(self)),
    ;

    /// Make the current workspaces the saved ones.
    fn persist_workspaces(&mut self)
        ensures
            old(self).does(Deed::Persist, *final(self)),
    ;
}

/// Produces a full observation of the world on demand. Hints are never trusted
/// as such: a hint only prompts a call to this.
pub trait WorldSource<W>: Sized {
    /// Looking may show this and turn the source into `after`.
    open spec fn shows(self, snap: W, after: Self) -> bool {
        true
    }

    fn snapshot(&mut self) -> (r: W)
        ensures
            old(self).shows(r, *final(self)),
    ;
}

/// Something a journal is given to keep.
pub enum Entry<S, W, N> {
    Step { event: Event<W>, step: Step<S, N> },
    OpResult { op: OpId, outcome: OpOutcome, wall_ms: i64 },
    Capped { dropped: usize },
    Burst { batch: HotkeyBatch, wall_ms: i64 },
    Restack { stats: RestackStats, wall_ms: i64 },
}

/// The number that follows `n`. After the largest the numbers start over.
pub open spec fn following(n: u64) -> u64 {
    if n == u64::MAX {
        0
    } else {
        (n + 1) as u64
    }
}

/// Keeps the record of what the engine did, and numbers its steps one after the
/// other.
pub trait Journal<S, W, N>: Sized {
    /// Being given this may turn the journal into `after`.
    open spec fn keeps(self, entry: Entry<S, W, N>, after: Self) -> bool {
        true
    }

    /// The number the next step gets. Which one that is, a journal says of itself.
    open spec fn number(self) -> u64 {
        0
    }

    /// One step: the event, what the core made of it, and the state it led to.
    fn log_step(&mut self, event: &Event<W>, effects: &Vec<Effect>, notes: &Vec<N>, state: &S)
        ensures
            old(self).keeps(
                Entry::Step {
                    event: *event,
                    step: Step { state: *state, effects: *effects, notes: *notes },
                },
                *final(self),
            ),
            final(self).number() == following(old(self).number()),
    ;

    /// How an operation's executor said it went, at a wall time.
    fn log_op_result(&mut self, op: OpId, outcome: &OpOutcome, now_wall_ms: i64)
        ensures
            old(self).keeps(
                Entry::OpResult { op, outcome: *outcome, wall_ms: now_wall_ms },
                *final(self),
            ),
            final(self).number() == old(self).number(),
    ;

    /// The reaction to one event ran the limit of its steps out, and this many
    /// events were dropped.
    fn log_cascade_cap(&mut self, dropped: usize)
        ensures
            old(self).keeps(Entry::Capped { dropped }, *final(self)),
            final(self).number() == old(self).number(),
    ;

    /// The number the next step will get.
    fn next_seq(&self) -> (r: u64)
        ensures
            r == self.number(),
    ;

    /// How long a burst of presses had queued.
    fn log_hotkey_batch(&mut self, batch: HotkeyBatch, now_wall_ms: i64)
        ensures
            old(self).keeps(Entry::Burst { batch, wall_ms: now_wall_ms }, *final(self)),
            final(self).number() == old(self).number(),
    ;

    /// What a restack cost.
    fn log_restack_stats(&mut self, stats: &RestackStats, now_wall_ms: i64)
        ensures
            old(self).keeps(Entry::Restack { stats: *stats, wall_ms: now_wall_ms }, *final(self)),
            final(self).number() == old(self).number(),
    ;
}

/// Observe mode: log what would be done, touch nothing.
pub struct NullEffector;

impl Effector for NullEffector {
    open spec fn does(self, deed: Deed, after: Self) -> bool {
        &&& after == self
        &&& deed matches Deed::Execute { outcome, .. } ==> outcome is None
    }

    fn execute(&mut self, _effect: &Effect) -> (r: Option<OpOutcome>)
        ensures
            r is None,
            *final(self) == *old(self),
    {
        None
    }

    fn bring_up_workspaces(&mut self, _use_state: bool)
        ensures
            *final(self) == *old(self),
    {
    }

    fn persist_workspaces(&mut self)
        ensures
            *final(self) == *old(self),
    {
    }
}

/// One restack's timing breakdown.
#[derive(Clone, Debug)]
pub struct RestackStats {
    pub total_ms: u64,
    /// Waiting for un-hidden windows to resurface before ordering could start.
    pub presence_wait_ms: u64,
    /// Waiting for the in-flight focus handoff to leave the ordering set.
    pub handoff_wait_ms: u64,
    /// Length of the desired order, the designated top counted.
    pub desired: u32,
    /// Desired windows that never resurfaced and were ordered around.
    pub missing: u32,
    /// Windows already in correct relative order at the bottom, not raised.
    pub skipped_suffix: u32,
    /// A second pass actually ran.
    pub second_pass: bool,
    /// The final read-back matched the desired order exactly.
    pub converged: bool,
    /// A newer desired order arrived and this one yielded to it.
    pub aborted: bool,
    /// Started by the watch that follows convergence, not by the engine.
    pub ghost_pass: bool,
    pub raises: Vec<RaiseStat>,
}

/// One issued raise and how long its landing took to confirm.
#[derive(Clone, Copy, Debug)]
pub struct RaiseStat {
    pub window: WindowId,
    pub pid: i32,
    pub kind: RaiseKind,
    pub pass: u8,
    /// Ordered windows above this one when its pass began.
    pub above_scope: u32,
    /// All ordinary windows above this one when its pass began.
    pub above_all: u32,
    pub wait_ms: u64,
    pub timed_out: bool,
    /// The landing was confirmed on a wake caused by the push stream.
    pub via_event: bool,
}

/// What a raise is expected to cost: raises of one app queue behind each
/// other, and the designated top targets an app that is already active.
#[derive(Clone, Copy, Debug, PartialEq, Eq, Structural)]
pub enum RaiseKind {
    Background,
    Sibling,
    Top,
}

impl RaiseKind {
    /// The word the log holds for this kind.
    pub open spec fn word(self) -> Seq<char> {
        match self {
            RaiseKind::Background => "background"@,
            RaiseKind::Sibling => "sibling"@,
            RaiseKind::Top => "top"@,
        }
    }

    pub fn as_str(self) -> (r: &'static str)
        ensures
            r@ == self.word(),
            self is Background ==> r@ == "background"@,
            self is Sibling ==> r@ == "sibling"@,
            self is Top ==> r@ == "top"@,
    {
        match self {
            RaiseKind::Background => "background",
            RaiseKind::Sibling => "sibling",
            RaiseKind::Top => "top",
        }
    }

    /// The words tell the kinds apart.
    pub proof fn law_words_are_distinct(a: RaiseKind, b: RaiseKind)
        requires
            a.word() == b.word(),
        ensures
            a == b,
    {
        reveal_strlit("background");
        reveal_strlit("sibling");
        reveal_strlit("top");
        assert("background"@.len() == 10 && "sibling"@.len() == 7 && "top"@.len() == 3);
    }
}

/// Where one observation's time went, in nanoseconds.
#[derive(Clone, Copy, Debug)]
pub struct SnapshotStats {
    pub total: u64,
    pub walk: u64,
    pub enforce: u64,
    pub apps: usize,
    pub windows: usize,
    /// The app that took longest, and how long.
    pub slowest: Option<(Pid, u64)>,
}

} // verus!
