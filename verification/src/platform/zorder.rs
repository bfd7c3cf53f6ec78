//! The global stacking order: read it, and impose a desired order on it.
//!
//! An order is imposed by raising each window, from back to front. A raise
//! returns when the app acknowledges it, not when the stack changes, so the
//! order is read back and raised again where it does not match.

use crate::ports::{RaiseKind, RaiseStat, RestackStats};
use crate::vocab::{same_order, WindowId};
use vstd::prelude::*;

verus! {

/// How often an order is raised before it is left to the next one.
pub const ATTEMPTS: u64 = 3;

/// The windows of the ordinary layer among the entries of the system's list.
pub open spec fn ordinary(entries: Seq<(Option<i64>, Option<i64>)>) -> Seq<WindowId>
    decreases entries.len(),
{
    if entries.len() == 0 {
        Seq::empty()
    } else {
        let before = ordinary(entries.drop_last());
        match entries.last() {
            (Some(layer), Some(wid)) => if layer == 0 {
                before.push(WindowId(wid as u32))
            } else {
                before
            },
            _ => before,
        }
    }
}

/// The ordinary windows on screen, front to back: each entry gives its layer
/// and its number.
pub fn stack_front_to_back(entries: &Vec<(Option<i64>, Option<i64>)>) -> (r: Vec<WindowId>)
    ensures
        r@ == ordinary(entries@),
{
    let mut out: Vec<WindowId> = Vec::new();
    for i in 0..entries.len()
        invariant
            out@ == ordinary(entries@.take(i as int)),
    {
        assert(entries@.take(i + 1).drop_last() =~= entries@.take(i as int));
        if let (Some(layer), Some(wid)) = entries[i] {
            if layer == 0 {
                out.push(WindowId(wid as u32));
            }
        }
    }
    assert(entries@.take(entries@.len() as int) =~= entries@);
    out
}

/// The windows of a list that are in another one and not focused.
pub open spec fn only(
    list: Seq<WindowId>,
    among: spec_fn(WindowId) -> bool,
    focused: Option<WindowId>,
) -> Seq<WindowId>
    decreases list.len(),
{
    if list.len() == 0 {
        Seq::empty()
    } else {
        let before = only(list.drop_last(), among, focused);
        if among(list.last()) && Some(list.last()) != focused {
            before.push(list.last())
        } else {
            before
        }
    }
}

/// The windows to order: all but the focused one, whose place is the system's
/// to decide.
pub open spec fn wanted(desired: Seq<WindowId>, focused: Option<WindowId>) -> Seq<WindowId> {
    only(desired, |w: WindowId| true, focused)
}

/// The order being imposed, front to back.
#[derive(Debug)]
pub struct Reassert {
    pub want: Vec<WindowId>,
    pub focused: Option<WindowId>,
    /// How often it has been raised.
    pub attempt: u64,
}

/// What imposing an order does next.
#[derive(Debug)]
pub enum ReassertStep {
    /// Raise these in order, wait so many milliseconds, and read the stack.
    Raise { back_to_front: Vec<WindowId>, wait_ms: u64 },
    /// Done: `true` if the order was reached or there was nothing to order.
    Done(bool),
    /// Stop short: a newer order has taken this one's place.
    Yield,
}

fn is_focused(w: WindowId, focused: Option<WindowId>) -> (r: bool)
    ensures
        r == (Some(w) == focused),
{
    match focused {
        Some(f) => f.0 == w.0,
        None => false,
    }
}

fn contains(list: &Vec<WindowId>, w: WindowId) -> (r: bool)
    ensures
        r == list@.contains(w),
{
    for i in 0..list.len()
        invariant
            forall|j: int| 0 <= j < i ==> list@[j] != w,
    {
        if list[i].0 == w.0 {
            assert(list@[i as int] == w);
            return true;
        }
    }
    false
}

impl Reassert {
    /// What is asked for next: another raise, or nothing when the attempts are
    /// used up or there is nothing to order.
    pub open spec fn asks(&self, step: ReassertStep) -> bool {
        if self.want@.len() < 2 {
            step == ReassertStep::Done(true)
        } else if self.attempt >= ATTEMPTS {
            step == ReassertStep::Done(false)
        } else {
            step matches ReassertStep::Raise { back_to_front, wait_ms } && back_to_front@
                == self.want@.reverse() && wait_ms == 30 + self.attempt * 90
        }
    }

    /// With the stack like this after a raise, it goes on to `after` with `step`.
    pub open spec fn goes_on(
        &self,
        stack: Seq<WindowId>,
        after: Reassert,
        step: ReassertStep,
    ) -> bool {
        let actual = only(stack, |w: WindowId| self.want@.contains(w), self.focused);
        &&& after.want@ == self.want@
        &&& after.focused == self.focused
        &&& if actual == self.want@ {
            step == ReassertStep::Done(true) && after.attempt == self.attempt
        } else {
            after.asks(step) && after.attempt == self.attempt + 1
        }
    }

    /// Begin to impose an order.
    pub fn new(desired: &Vec<WindowId>, focused: Option<WindowId>) -> (r: Reassert)
        ensures
            r.want@ == wanted(desired@, focused),
            r.focused == focused,
            r.attempt == 0,
    {
        let mut want: Vec<WindowId> = Vec::new();
        for i in 0..desired.len()
            invariant
                want@ == wanted(desired@.take(i as int), focused),
        {
            assert(desired@.take(i + 1).drop_last() =~= desired@.take(i as int));
            if !is_focused(desired[i], focused) {
                want.push(desired[i]);
            }
        }
        assert(desired@.take(desired@.len() as int) =~= desired@);
        Reassert { want, focused, attempt: 0 }
    }

    /// What to do next.
    pub fn step(&self) -> (r: ReassertStep)
        ensures
            self.asks(r),
            r is Raise <==> self.want@.len() >= 2 && self.attempt < 3,
            r is Raise ==> r->wait_ms == 30 + 90 * self.attempt && r->back_to_front@.len()
                == self.want@.len(),
            r is Raise ==> forall|i: int|
                0 <= i < self.want@.len() ==> #[trigger] r->back_to_front@[i] == self.want@[self.want@.len()
                    - 1 - i],
            r is Done ==> (r->0 <==> self.want@.len() < 2),
    {
        if self.want.len() < 2 {
            return ReassertStep::Done(true);
        }
        if self.attempt >= ATTEMPTS {
            return ReassertStep::Done(false);
        }
        let mut back_to_front: Vec<WindowId> = Vec::new();
        let n: usize = self.want.len();
        for i in 0..n
            invariant
                n == self.want@.len(),
                back_to_front@.len() == i,
                forall|j: int| 0 <= j < i ==> back_to_front@[j] == self.want@[n - 1 - j],
        {
            back_to_front.push(self.want[n - 1 - i]);
        }
        assert(back_to_front@ =~= self.want@.reverse());
        ReassertStep::Raise { back_to_front, wait_ms: 30 + self.attempt * 90 }
    }

    /// The stack was read back after a raise: done if the wanted windows stand
    /// in the wanted order, whatever stands between them; else once more,
    /// while there are attempts left.
    pub fn read_back(&mut self, stack: &Vec<WindowId>) -> (r: ReassertStep)
        requires
            old(self).attempt < ATTEMPTS,
        ensures
            old(self).goes_on(stack@, *final(self), r),
    {
        let mut actual: Vec<WindowId> = Vec::new();
        let ghost among = |w: WindowId| old(self).want@.contains(w);
        for i in 0..stack.len()
            invariant
                self == old(self),
                among == (|w: WindowId| old(self).want@.contains(w)),
                actual@ == only(stack@.take(i as int), among, self.focused),
        {
            assert(stack@.take(i + 1).drop_last() =~= stack@.take(i as int));
            if contains(&self.want, stack[i]) && !is_focused(stack[i], self.focused) {
                actual.push(stack[i]);
            }
        }
        assert(stack@.take(stack@.len() as int) =~= stack@);
        if same_order(&actual, &self.want) {
            return ReassertStep::Done(true);
        }
        self.attempt = self.attempt + 1;
        self.step()
    }

    /// The raises of a step were issued. A newer order ends it there; else the
    /// stack tells, which was read after the wait.
    pub fn raised(&mut self, superseded: bool, stack: &Vec<WindowId>) -> (r: ReassertStep)
        requires
            old(self).attempt < ATTEMPTS,
        ensures
            superseded ==> r == ReassertStep::Yield && *final(self) == *old(self),
            !superseded ==> old(self).goes_on(stack@, *final(self), r),
    {
        if superseded {
            return ReassertStep::Yield;
        }
        self.read_back(stack)
    }
}

/// The focused window is never raised, and every other desired one is.
pub proof fn law_focused_window_is_left_alone(
    desired: Seq<WindowId>,
    focused: Option<WindowId>,
    w: WindowId,
)
    ensures
        wanted(desired, focused).contains(w) <==> desired.contains(w) && Some(w) != focused,
    decreases desired.len(),
{
    if desired.len() > 0 {
        let init = desired.drop_last();
        law_focused_window_is_left_alone(init, focused, w);
        let before = wanted(init, focused);
        let after = wanted(desired, focused);
        if before.contains(w) {
            let k = choose|k: int| 0 <= k < before.len() && before[k] == w;
            assert(after[k] == w);
        }
        if init.contains(w) {
            let k = choose|k: int| 0 <= k < init.len() && init[k] == w;
            assert(desired[k] == w);
        }
        if desired.contains(w) && !init.contains(w) {
            let k = choose|k: int| 0 <= k < desired.len() && desired[k] == w;
            assert(k == desired.len() - 1) by {
                if k < init.len() {
                    assert(init[k] == w);
                }
            }
            if Some(w) != focused {
                assert(after[after.len() - 1] == w);
            }
        }
        if after.contains(w) && !before.contains(w) {
            let k = choose|k: int| 0 <= k < after.len() && after[k] == w;
            if k < before.len() {
                assert(before[k] == w);
            }
            assert(desired[desired.len() - 1] == w);
        }
    }
}

// --- what imposing an order cost -------------------------------------------------

/// How many windows of a stack stand above one; all of them, if it is not there.
pub open spec fn above(stack: Seq<WindowId>, w: WindowId) -> nat
    decreases stack.len(),
{
    if stack.len() == 0 || stack[0] == w {
        0
    } else {
        1 + above(stack.skip(1), w)
    }
}

/// How many of the first `n` windows of a stack are among these.
pub open spec fn count_among(stack: Seq<WindowId>, among: Seq<WindowId>, n: int) -> nat
    decreases n,
{
    if n <= 0 {
        0
    } else if among.contains(stack[n - 1]) {
        count_among(stack, among, n - 1) + 1
    } else {
        count_among(stack, among, n - 1)
    }
}

/// The account of an order being imposed.
#[derive(Debug)]
pub struct RestackLog {
    /// How many windows the desired order holds.
    pub desired: usize,
    /// The pass under way, counted from one.
    pub pass: u8,
    /// The stack as the pass found it.
    pub stack: Vec<WindowId>,
    /// The windows the pass is to raise.
    pub scope: Vec<WindowId>,
    /// The apps the pass has raised windows of.
    pub apps: Vec<i32>,
    pub raises: Vec<RaiseStat>,
}

impl RestackLog {
    pub fn new(desired: usize) -> (r: RestackLog)
        ensures
            r.desired == desired,
            r.pass == 0,
            r.stack@.len() == 0,
            r.scope@.len() == 0,
            r.apps@.len() == 0,
            r.raises@.len() == 0,
    {
        RestackLog {
            desired,
            pass: 0,
            stack: Vec::new(),
            scope: Vec::new(),
            apps: Vec::new(),
            raises: Vec::new(),
        }
    }

    /// A pass begins, to raise the windows of `scope`.
    pub fn begin_pass(&mut self, stack: Vec<WindowId>, scope: Vec<WindowId>)
        requires
            old(self).pass < u8::MAX,
        ensures
            final(self).desired == old(self).desired,
            final(self).pass == old(self).pass + 1,
            final(self).stack == stack,
            final(self).scope == scope,
            final(self).apps@.len() == 0,
            final(self).raises == old(self).raises,
    {
        self.pass = self.pass + 1;
        self.stack = stack;
        self.scope = scope;
        self.apps = Vec::new();
    }

    /// What is noted of a raise: how deep the pass found the window, and whether
    /// its app had been raised before in the same pass. Landings are not waited
    /// for one by one.
    pub open spec fn noted(&self, window: WindowId, pid: i32) -> RaiseStat {
        RaiseStat {
            window,
            pid,
            kind: if self.apps@.contains(pid) {
                RaiseKind::Sibling
            } else {
                RaiseKind::Background
            },
            pass: self.pass,
            above_scope: count_among(
                self.stack@,
                self.scope@,
                above(self.stack@, window) as int,
            ) as u32,
            above_all: above(self.stack@, window) as u32,
            wait_ms: 0,
            timed_out: false,
            via_event: false,
        }
    }

    /// A window was raised.
    pub fn raised(&mut self, window: WindowId, pid: i32)
        ensures
            final(self).raises@ == old(self).raises@.push(old(self).noted(window, pid)),
            final(self).raises@.last().window == window,
            final(self).raises@.last().pid == pid,
            final(self).raises@.last().pass == old(self).pass,
            final(self).raises@.last().kind == RaiseKind::Sibling <==> old(self).apps@.contains(pid),
            final(self).raises@.last().wait_ms == 0,
            !final(self).raises@.last().timed_out,
            !final(self).raises@.last().via_event,
            final(self).apps@ == old(self).apps@.push(pid),
            final(self).desired == old(self).desired,
            final(self).pass == old(self).pass,
            final(self).stack == old(self).stack,
            final(self).scope == old(self).scope,
    {
        let mut over: usize = 0;
        let mut among: usize = 0;
        let ghost all = self.stack@;
        assert(all.skip(0) =~= all);
        while over < self.stack.len() && self.stack[over].0 != window.0
            invariant
                *self == *old(self),
                all == self.stack@,
                over <= all.len(),
                among <= over,
                above(all, window) == over + above(all.skip(over as int), window),
                among == count_among(all, self.scope@, over as int),
            decreases all.len() - over,
        {
            assert(all.skip(over as int).skip(1) =~= all.skip(over + 1));
            assert(all.skip(over as int)[0] == all[over as int]);
            if contains(&self.scope, self.stack[over]) {
                among += 1;
            }
            over += 1;
        }
        if over < self.stack.len() {
            assert(all.skip(over as int)[0] == all[over as int]);
        }
        let mut sibling = false;
        for i in 0..self.apps.len()
            invariant
                *self == *old(self),
                sibling <==> exists|j: int| 0 <= j < i && self.apps@[j] == pid,
        {
            if self.apps[i] == pid {
                sibling = true;
            }
        }
        let kind = if sibling {
            RaiseKind::Sibling
        } else {
            RaiseKind::Background
        };
        let stat = RaiseStat {
            window,
            pid,
            kind,
            pass: self.pass,
            above_scope: among as u32,
            above_all: over as u32,
            wait_ms: 0,
            timed_out: false,
            via_event: false,
        };
        assert(stat == old(self).noted(window, pid));
        self.raises.push(stat);
        self.apps.push(pid);
    }

    /// The account of the whole, by the step it ended with. `None` if nothing was
    /// raised and nothing cut short.
    pub fn finish(self, total_ms: u64, end: ReassertStep) -> (r: Option<RestackStats>)
        requires
            end !is Raise,
        ensures
            r is None <==> self.raises@.len() == 0 && end !is Yield,
            r matches Some(stats) ==> stats == (RestackStats {
                total_ms,
                presence_wait_ms: 0,
                handoff_wait_ms: 0,
                desired: self.desired as u32,
                missing: 0,
                skipped_suffix: 0,
                second_pass: self.pass > 1,
                converged: end == ReassertStep::Done(true),
                aborted: end is Yield,
                ghost_pass: false,
                raises: self.raises,
            }),
    {
        let (converged, aborted) = match end {
            ReassertStep::Done(reached) => (reached, false),
            ReassertStep::Yield => (false, true),
            ReassertStep::Raise { .. } => (false, false),
        };
        if self.raises.len() == 0 && !aborted {
            return None;
        }
        Some(
            RestackStats {
                total_ms,
                presence_wait_ms: 0,
                handoff_wait_ms: 0,
                desired: self.desired as u32,
                missing: 0,
                skipped_suffix: 0,
                second_pass: self.pass > 1,
                converged,
                aborted,
                ghost_pass: false,
                raises: self.raises,
            },
        )
    }
}

/// The stack is read in the order it is listed, and of one entry exactly what
/// has both a layer and a number, and is of layer 0, counts.
pub proof fn law_the_stack_is_read_in_order(
    a: Seq<(Option<i64>, Option<i64>)>,
    b: Seq<(Option<i64>, Option<i64>)>,
    entry: (Option<i64>, Option<i64>),
)
    ensures
        ordinary(a + b) == ordinary(a) + ordinary(b),
        ordinary(seq![entry]).len() == 1 <==> entry.0 == Some(0i64) && entry.1 is Some,
        ordinary(seq![entry]).len() <= 1,
        entry.0 == Some(0i64) && entry.1 is Some && 0 <= entry.1->0 <= u32::MAX ==> ordinary(
            seq![entry],
        )[0].0 == entry.1->0,
    decreases b.len(),
{
    assert(seq![entry].drop_last() =~= Seq::empty());
    assert(seq![entry].last() == entry);
    assert(ordinary(seq![entry].drop_last()) =~= Seq::empty());
    if b.len() == 0 {
        assert(a + b =~= a);
    } else {
        law_the_stack_is_read_in_order(a, b.drop_last(), entry);
        assert((a + b).drop_last() =~= a + b.drop_last());
        assert((a + b).last() == b.last());
    }
    assert(ordinary(a + b) =~= ordinary(a) + ordinary(b));
}

proof fn lemma_only_filters(
    list: Seq<WindowId>,
    among: spec_fn(WindowId) -> bool,
    focused: Option<WindowId>,
)
    ensures
        only(list, among, focused) == list.filter(|w: WindowId| among(w) && Some(w) != focused),
    decreases list.len(),
{
    reveal(Seq::filter);
    if list.len() > 0 {
        lemma_only_filters(list.drop_last(), among, focused);
    }
}

/// The windows to raise are the desired ones in the desired order, without the
/// focused one.
pub proof fn law_the_desired_order_is_kept(desired: Seq<WindowId>, focused: Option<WindowId>)
    ensures
        wanted(desired, focused) == desired.filter(|w: WindowId| Some(w) != focused),
        focused is None ==> wanted(desired, focused) == desired,
{
    lemma_only_filters(desired, |w: WindowId| true, focused);
    let p = |w: WindowId| Some(w) != focused;
    let q = |w: WindowId| (|w: WindowId| true)(w) && Some(w) != focused;
    assert(p =~= q);
    if focused is None {
        lemma_all_pass(desired, p);
    }
}

proof fn lemma_all_pass(s: Seq<WindowId>, p: spec_fn(WindowId) -> bool)
    requires
        forall|i: int| 0 <= i < s.len() ==> p(#[trigger] s[i]),
    ensures
        s.filter(p) == s,
    decreases s.len(),
{
    reveal(Seq::filter);
    if s.len() > 0 {
        lemma_all_pass(s.drop_last(), p);
        assert(s =~= s.drop_last().push(s.last()));
    }
}

/// An order is reached exactly when the wanted windows of the stack, the
/// focused one and all others left out, stand in the wanted order. Until then
/// it is raised again, three times in all, back to front, each time with a
/// longer wait.
pub proof fn law_an_order_is_raised_until_it_stands(
    order: Reassert,
    stack: Seq<WindowId>,
    after: Reassert,
    step: ReassertStep,
)
    requires
        order.goes_on(stack, after, step),
        order.want@.len() >= 2,
        order.attempt < 3,
    ensures
        ({
            let stands = stack.filter(
                |w: WindowId| order.want@.contains(w) && Some(w) != order.focused,
            ) == order.want@;
            &&& after.want@ == order.want@
            &&& after.focused == order.focused
            &&& stands ==> step == ReassertStep::Done(true)
            &&& !stands && order.attempt == 2 ==> step == ReassertStep::Done(false)
            &&& !stands && order.attempt < 2 ==> {
                &&& step is Raise
                &&& after.attempt == order.attempt + 1
                &&& step->wait_ms == 30 + 90 * (order.attempt + 1)
                &&& step->back_to_front@.len() == order.want@.len()
                &&& forall|i: int|
                    0 <= i < order.want@.len() ==> #[trigger] step->back_to_front@[i]
                        == order.want@[order.want@.len() - 1 - i]
            }
        }),
{
    let among = |w: WindowId| order.want@.contains(w);
    lemma_only_filters(stack, among, order.focused);
    assert((|w: WindowId| among(w) && Some(w) != order.focused) =~= (|w: WindowId|
        order.want@.contains(w) && Some(w) != order.focused));
}

/// A window is as deep as its place in the stack; one that is not there is
/// deeper than all that are.
pub proof fn law_depth_is_the_place_in_the_stack(stack: Seq<WindowId>, w: WindowId, k: int)
    requires
        0 <= k <= stack.len(),
        forall|i: int| 0 <= i < k ==> stack[i] != w,
        k < stack.len() ==> stack[k] == w,
    ensures
        above(stack, w) == k,
    decreases stack.len(),
{
    if k > 0 {
        assert(stack[0] != w);
        law_depth_is_the_place_in_the_stack(stack.skip(1), w, k - 1);
    }
}

/// Of the windows above one, those count that are to be raised in this pass.
pub proof fn law_depth_in_scope_counts_those_to_raise(
    stack: Seq<WindowId>,
    among: Seq<WindowId>,
    n: int,
)
    requires
        0 <= n <= stack.len(),
    ensures
        count_among(stack, among, n) == stack.take(n).filter(
            |w: WindowId| among.contains(w),
        ).len(),
    decreases n,
{
    reveal(Seq::filter);
    if n > 0 {
        law_depth_in_scope_counts_those_to_raise(stack, among, n - 1);
        assert(stack.take(n).drop_last() =~= stack.take(n - 1));
        assert(stack.take(n).last() == stack[n - 1]);
    }
}

/// A raise is accounted for under its own window and app, with the depth the
/// pass found it at.
pub proof fn law_raises_are_noted_as_made(log: RestackLog, window: WindowId, pid: i32, k: int)
    requires
        0 <= k <= log.stack@.len() <= u32::MAX,
        forall|i: int| 0 <= i < k ==> log.stack@[i] != window,
        k < log.stack@.len() ==> log.stack@[k] == window,
    ensures
        ({
            let stat = log.noted(window, pid);
            &&& stat.window == window
            &&& stat.pid == pid
            &&& stat.pass == log.pass
            &&& stat.above_all == k
            &&& stat.above_scope == log.stack@.take(k).filter(
                |w: WindowId| log.scope@.contains(w),
            ).len()
            &&& stat.kind == RaiseKind::Sibling <==> log.apps@.contains(pid)
            &&& stat.kind == RaiseKind::Background <==> !log.apps@.contains(pid)
            &&& stat.wait_ms == 0 && !stat.timed_out && !stat.via_event
        }),
{
    law_depth_is_the_place_in_the_stack(log.stack@, window, k);
    law_depth_in_scope_counts_those_to_raise(log.stack@, log.scope@, k);
    let p = |w: WindowId| log.scope@.contains(w);
    log.stack@.take(k).lemma_filter_len(p);
}

/// A window's number loses its upper bits where it has more than a window's number
/// has.
pub proof fn law_window_numbers_lose_their_upper_bits(wid: i64)
    ensures
        ordinary(seq![(Some(0i64), Some(wid))]).len() == 1,
        ordinary(seq![(Some(0i64), Some(wid))])[0].0 as u64 == (wid as u64) % 0x1_0000_0000,
{
    let entries = seq![(Some(0i64), Some(wid))];
    assert(entries.drop_last() =~= Seq::empty());
    assert(ordinary(entries.drop_last()) =~= Seq::empty());
    assert((wid as u32) as u64 == (wid as u64) % 0x1_0000_0000) by (bit_vector);
}

/// With fewer than two windows to order there is nothing to do, and with the
/// attempts used up nothing more is done.
pub proof fn law_nothing_to_order_is_done_at_once(order: Reassert, step: ReassertStep)
    requires
        order.asks(step),
    ensures
        order.want@.len() < 2 ==> step == ReassertStep::Done(true),
        order.want@.len() >= 2 && order.attempt >= 3 ==> step == ReassertStep::Done(false),
        order.want@.len() >= 2 && order.attempt < 3 ==> step is Raise,
{
}

} // verus!
