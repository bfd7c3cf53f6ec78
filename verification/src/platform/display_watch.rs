//! Display plug and unplug, debounced.
//!
//! A display change is not one event, and for a second or so afterwards the
//! system is still moving windows about. What is seen in that time is true for
//! an instant and never again. So a change records nothing but the time; until
//! it has settled the world counts as unobservable, and then one look is taken.

use vstd::prelude::*;

verus! {

/// Milliseconds a change takes to settle.
pub const SETTLE_MS: u64 = 1000;

/// Milliseconds between two checks whether it has.
pub const POLL_MS: u64 = 100;

/// When the displays last changed: one record, which the callback stamps and the
/// world source and the poster read. It cannot be copied; whoever needs it in
/// several places shares the one behind a lock.
#[derive(Debug)]
pub struct DisplaySettle {
    /// The clock reading at the last change; 0 for never.
    last_ms: u64,
}

/// The clock that changes are stamped with: one more than the milliseconds
/// since the start, so that no stamp is ever the one that means never.
pub fn clock_ms(elapsed_ms: u64) -> (r: u64)
    requires
        elapsed_ms < u64::MAX,
    ensures
        r == elapsed_ms + 1,
        r != 0,
{
    elapsed_ms + 1
}

impl DisplaySettle {
    /// The clock reading at the last change; 0 for never.
    pub closed spec fn stamped(self) -> u64 {
        self.last_ms
    }

    /// A change is still settling at `now`.
    pub open spec fn unsettled(self, now: u64) -> bool {
        self.stamped() != 0 && now - self.stamped() < SETTLE_MS
    }

    pub fn new() -> (r: DisplaySettle)
        ensures
            r.stamped() == 0,
    {
        DisplaySettle { last_ms: 0 }
    }

    /// The displays changed, in whatever way. `now` is a reading of [`clock_ms`],
    /// which is never 0.
    pub fn stamp(&mut self, now: u64)
        requires
            now != 0,
        ensures
            final(self).stamped() == now,
    {
        self.last_ms = now;
    }

    pub fn last(&self) -> (r: u64)
        ensures
            r == self.stamped(),
    {
        self.last_ms
    }

    /// Whether the world is unobservable at `now`.
    pub fn settling(&self, now: u64) -> (r: bool)
        ensures
            r == self.unsettled(now),
    {
        self.last_ms != 0 && now.saturating_sub(self.last_ms) < SETTLE_MS
    }
}

impl Default for DisplaySettle {
    fn default() -> (r: DisplaySettle)
        ensures
            r.stamped() == 0,
    {
        DisplaySettle::new()
    }
}

/// Posts one look for every change that has settled.
#[derive(Clone, Copy, Debug, PartialEq, Eq, Structural)]
pub struct Poster {
    /// The change a look was last posted for.
    pub posted_for: u64,
}

impl Poster {
    pub fn new() -> (r: Poster)
        ensures
            r.posted_for == 0,
    {
        Poster { posted_for: 0 }
    }

    /// A look is owed: there was a change, it has settled, and none was posted
    /// for it.
    pub open spec fn owes(self, settle: DisplaySettle, now: u64) -> bool {
        settle.stamped() != 0 && settle.stamped() != self.posted_for && !settle.unsettled(now)
    }

    /// Check whether a look is owed, and count it as posted if so.
    pub fn due(&mut self, settle: &DisplaySettle, now: u64) -> (r: bool)
        ensures
            r == old(self).owes(*settle, now),
            final(self).posted_for == (if r {
                settle.stamped()
            } else {
                old(self).posted_for
            }),
    {
        let last: u64 = settle.last();
        if last == 0 || last == self.posted_for || settle.settling(now) {
            return false;
        }
        self.posted_for = last;
        true
    }
}

/// A change that has settled is answered once: right after a look was posted no
/// further one is owed, however often it is checked, until the next change.
pub proof fn law_one_look_per_change(poster: Poster, settle: DisplaySettle, now: u64, later: u64)
    requires
        poster.owes(settle, now),
        now <= later,
    ensures
        !(Poster { posted_for: settle.stamped() }).owes(settle, later),
{
}

/// Every change starts the settling anew: from a stamp on the world is
/// unobservable for a second and no longer, whatever was stamped before, and the
/// stamp is never taken for none. As the clock does not run backwards, the last
/// stamp never does.
pub proof fn law_a_change_starts_the_settling_anew(
    before: DisplaySettle,
    after: DisplaySettle,
    elapsed_ms: u64,
    later: u64,
)
    requires
        elapsed_ms < u64::MAX,
        after.stamped() == elapsed_ms + 1,
        before.stamped() <= elapsed_ms + 1 <= later,
    ensures
        after.stamped() >= 1,
        after.stamped() >= before.stamped(),
        after.unsettled(later) <==> later < after.stamped() + SETTLE_MS,
{
}

/// No look is owed while a change is settling, and a second after the last one
/// the world is observable again.
pub proof fn law_settles_within_a_second(poster: Poster, settle: DisplaySettle, now: u64)
    ensures
        settle.unsettled(now) ==> !poster.owes(settle, now),
        now >= settle.stamped() + SETTLE_MS ==> !settle.unsettled(now),
{
}

/// The world is unobservable for exactly a thousand milliseconds from a change
/// on, and never without one.
pub proof fn law_changes_settle_for_a_thousand_milliseconds(settle: DisplaySettle, now: u64)
    ensures
        settle.unsettled(now) <==> settle.stamped() != 0 && now < settle.stamped() + 1000,
{
}

/// A look is owed for every change once it has settled, and for nothing else.
pub proof fn law_every_settled_change_is_looked_at(
    poster: Poster,
    settle: DisplaySettle,
    now: u64,
)
    ensures
        poster.owes(settle, now) <==> {
            &&& settle.stamped() != 0
            &&& settle.stamped() != poster.posted_for
            &&& now >= settle.stamped() + 1000
        },
{
}

} // verus!
