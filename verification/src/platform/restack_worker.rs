//! The restack worker: stacking order enforced beside the engine.
//!
//! Only the latest desired order matters. A newer one bumps the generation,
//! which tells a run under way to yield. A run that converged stays listening
//! for a while, since a raise it stopped waiting for can still land; such a
//! landing announces itself, and the order is imposed again.

use crate::platform::ws_events::WaitOutcome;
use crate::ports::RestackStats;
use crate::vocab::WindowId;
use vstd::prelude::*;

verus! {

/// Milliseconds a run that converged stays listening.
pub const GHOST_WATCH_MS: u64 = 1800;

/// How often the order is imposed again during one watch. What is imposed makes
/// the same noise that is listened for, and someone may be reordering on purpose.
pub const MAX_RERUNS: u8 = 1;

/// The latest desired order, waiting for the worker.
#[derive(Debug)]
pub struct RestackSlot {
    /// Bumped by every order.
    pub generation: u64,
    /// The order and its generation, until the worker takes it.
    pub job: Option<(u64, Vec<WindowId>)>,
}

impl RestackSlot {
    pub fn new() -> (r: RestackSlot)
        ensures
            r.generation == 0,
            r.job is None,
    {
        RestackSlot { generation: 0, job: None }
    }

    /// A new order takes the place of the last, taken or not.
    pub fn submit(&mut self, order: Vec<WindowId>)
        ensures
            final(self).generation == (if old(self).generation == u64::MAX {
                0
            } else {
                old(self).generation + 1
            }),
            final(self).job == Some((final(self).generation, order)),
    {
        self.generation = self.generation.wrapping_add(1);
        self.job = Some((self.generation, order));
    }

    /// The worker takes the order, if there is one.
    pub fn take(&mut self) -> (r: Option<(u64, Vec<WindowId>)>)
        ensures
            r == old(self).job,
            final(self).job is None,
            final(self).generation == old(self).generation,
    {
        self.job.take()
    }

    /// Whether a run of this generation has been superseded.
    pub fn superseded(&self, generation: u64) -> (r: bool)
        ensures
            r == (self.generation != generation),
    {
        self.generation != generation
    }
}

/// Whether a run is worth watching over: it ended in the desired order without
/// yielding, and it raised something.
pub fn worth_watching(stats: &Option<RestackStats>) -> (r: bool)
    ensures
        r == (stats matches Some(s) && s.converged && !s.aborted && s.raises@.len() > 0),
{
    match stats {
        Some(s) => s.converged && !s.aborted && s.raises.len() > 0,
        None => false,
    }
}

/// The watch over a run that converged.
#[derive(Clone, Copy, Debug, PartialEq, Eq, Structural)]
pub struct GhostWatch {
    pub reruns: u8,
}

impl GhostWatch {
    pub fn new() -> (r: GhostWatch)
        ensures
            r.reruns == 0,
    {
        GhostWatch { reruns: 0 }
    }

    /// Whether to keep listening.
    pub fn listening(&self) -> (r: bool)
        ensures
            r == (self.reruns < MAX_RERUNS),
            r <==> self.reruns == 0,
    {
        self.reruns < MAX_RERUNS
    }

    /// A wait for a landing ended. `true` asks for the order to be imposed
    /// again; otherwise the watch is over.
    pub fn heard(&mut self, outcome: WaitOutcome) -> (r: bool)
        requires
            old(self).reruns < MAX_RERUNS,
        ensures
            r == (outcome == WaitOutcome::Hint),
            final(self).reruns == (if r {
                (old(self).reruns + 1) as u8
            } else {
                MAX_RERUNS
            }),
    {
        match outcome {
            WaitOutcome::Hint => {
                self.reruns = self.reruns + 1;
                true
            },
            WaitOutcome::Timeout | WaitOutcome::Cancelled => {
                self.reruns = MAX_RERUNS;
                false
            },
        }
    }
}

/// Mark the timing of a run that a watch started.
pub fn mark_ghost_pass(stats: RestackStats) -> (r: RestackStats)
    ensures
        r == (RestackStats { ghost_pass: true, ..stats }),
{
    let mut stats = stats;
    stats.ghost_pass = true;
    stats
}

/// Whether a landing of this window concerns an order.
pub fn ordered(order: &Vec<WindowId>, window: u32) -> (r: bool)
    ensures
        r == order@.contains(WindowId(window)),
{
    for i in 0..order.len()
        invariant
            forall|j: int| 0 <= j < i ==> order@[j] != WindowId(window),
    {
        if order[i].0 == window {
            assert(order@[i as int] == WindowId(window));
            return true;
        }
    }
    false
}

} // verus!
