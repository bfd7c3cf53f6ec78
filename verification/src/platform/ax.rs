//! Windows as the accessibility interface shows them.
//!
//! Every call is a round trip to an app, writes are acknowledged before they
//! take, and handles go stale. So windows are found afresh by number for every
//! write, and whether a write took is asked of the window server.

use crate::vocab::{Pid, Point, Rect, WindowId};
use vstd::prelude::*;

verus! {

/// Milliseconds one un-hide may spend holding its windows in place.
pub const HOLD_BUDGET_MS: u64 = 250;

/// A window as an app describes it.
#[derive(Debug)]
pub struct AxWindow {
    pub id: WindowId,
    pub app: Pid,
    pub bundle_id: Option<String>,
    pub title: String,
    pub frame: Rect,
    pub subrole: Option<String>,
}

/// Whether an app is asked at all: only those in the Dock are, and only real
/// processes.
pub fn asks_app(regular: bool, pid: i32) -> (r: bool)
    ensures
        r == (regular && pid > 0),
{
    regular && pid > 0
}

/// The number of a window, from what the system answered. A window without one
/// never enters the model.
pub fn window_id(error: i32, wid: u32) -> (r: Option<WindowId>)
    ensures
        r == (if error == 0 && wid != 0 {
            Some(WindowId(wid))
        } else {
            None
        }),
{
    if error == 0 && wid != 0 {
        Some(WindowId(wid))
    } else {
        None
    }
}

/// A window, from what its app answered about it. One that does not say where
/// it is or how large is left out; one without a title has an empty one.
pub fn read_window(
    id: Option<WindowId>,
    app: Pid,
    bundle_id: Option<String>,
    position: Option<Point>,
    size: Option<(u64, u64)>,
    title: Option<String>,
    subrole: Option<String>,
) -> (r: Option<AxWindow>)
    ensures
        r is Some <==> id is Some && position is Some && size is Some,
        r matches Some(w) ==> {
            &&& Some(w.id) == id
            &&& w.app == app
            &&& w.bundle_id == bundle_id
            &&& w.title@ == (match title {
                Some(t) => t@,
                None => Seq::empty(),
            })
            &&& w.frame == (Rect {
                x: position->Some_0.x,
                y: position->Some_0.y,
                w: size->Some_0.0,
                h: size->Some_0.1,
            })
            &&& w.subrole == subrole
        },
{
    match (id, position, size) {
        (Some(id), Some(p), Some((w, h))) => Some(
            AxWindow {
                id,
                app,
                bundle_id,
                title: match title {
                    Some(t) => t,
                    None => String::new(),
                },
                frame: Rect { x: p.x, y: p.y, w, h },
                subrole,
            },
        ),
        _ => None,
    }
}

// --- the focus handoff ---------------------------------------------------------

/// The byte at `i` of the record that makes a window key, in its `phase`.
pub open spec fn key_byte(wid: u32, phase: u8, i: int) -> u8 {
    if i == 0x04 {
        0xf8
    } else if i == 0x08 {
        phase
    } else if 0x20 <= i < 0x30 {
        0xff
    } else if i == 0x3a {
        0x10
    } else if i == 0x3c {
        (wid % 0x100) as u8
    } else if i == 0x3d {
        (wid / 0x100 % 0x100) as u8
    } else if i == 0x3e {
        (wid / 0x1_0000 % 0x100) as u8
    } else if i == 0x3f {
        (wid / 0x100_0000) as u8
    } else {
        0
    }
}

/// The record that makes a window key. It is posted twice, in phase 1 and then
/// in phase 2.
pub fn make_key_window(wid: u32, phase: u8) -> (r: Vec<u8>)
    ensures
        r@.len() == 0xf8,
        forall|i: int| 0 <= i < 0xf8 ==> #[trigger] r@[i] == key_byte(wid, phase, i),
{
    let mut bytes: Vec<u8> = Vec::new();
    let mut i: usize = 0;
    while i < 0xf8
        invariant
            i <= 0xf8,
            bytes@.len() == i,
            forall|j: int| 0 <= j < i ==> #[trigger] bytes@[j] == key_byte(wid, phase, j),
        decreases 0xf8 - i,
    {
        let byte: u8 = if i == 0x04 {
            0xf8
        } else if i == 0x08 {
            phase
        } else if i >= 0x20 && i < 0x30 {
            0xff
        } else if i == 0x3a {
            0x10
        } else if i == 0x3c {
            (wid % 0x100) as u8
        } else if i == 0x3d {
            (wid / 0x100 % 0x100) as u8
        } else if i == 0x3e {
            (wid / 0x1_0000 % 0x100) as u8
        } else if i == 0x3f {
            (wid / 0x100_0000) as u8
        } else {
            0
        };
        bytes.push(byte);
        i += 1;
    }
    bytes
}

/// The record carries the window's number, the lowest byte first.
pub proof fn law_key_record_carries_the_window(wid: u32, phase: u8)
    ensures
        key_byte(wid, phase, 0x3c) + key_byte(wid, phase, 0x3d) * 0x100 + key_byte(wid, phase, 0x3e)
            * 0x1_0000 + key_byte(wid, phase, 0x3f) * 0x100_0000 == wid,
{
}

// --- moving windows -----------------------------------------------------------------

/// The moves that concern one app, in order.
pub open spec fn moves_of(moves: Seq<(Pid, WindowId, Point)>, pid: Pid) -> Seq<(WindowId, Point)>
    decreases moves.len(),
{
    if moves.len() == 0 {
        Seq::empty()
    } else if moves.last().0 == pid {
        moves_of(moves.drop_last(), pid).push((moves.last().1, moves.last().2))
    } else {
        moves_of(moves.drop_last(), pid)
    }
}

/// One of the groups is this app's.
pub open spec fn served(groups: Seq<(Pid, Vec<(WindowId, Point)>)>, pid: Pid) -> bool {
    exists|i: int| 0 <= i < groups.len() && (#[trigger] groups[i]).0 == pid
}

/// A batch of moves by app: one walk of an app's windows then serves all of
/// its moves, and the apps can be served side by side. Sizes are never
/// touched.
pub fn move_windows(moves: &Vec<(Pid, WindowId, Point)>) -> (r: Vec<(Pid, Vec<(WindowId, Point)>)>)
    ensures
        forall|i: int, j: int| 0 <= i < j < r@.len() ==> r@[i].0 != r@[j].0,
        forall|i: int| 0 <= i < r@.len() ==> (#[trigger] r@[i]).1@ == moves_of(moves@, r@[i].0),
        forall|i: int| 0 <= i < r@.len() ==> (#[trigger] r@[i]).1@.len() > 0,
        forall|k: int| 0 <= k < moves@.len() ==> served(r@, (#[trigger] moves@[k]).0),
{
    let mut by_app: Vec<(Pid, Vec<(WindowId, Point)>)> = Vec::new();
    for k in 0..moves.len()
        invariant
            forall|i: int, j: int| 0 <= i < j < by_app@.len() ==> by_app@[i].0 != by_app@[j].0,
            forall|i: int|
                0 <= i < by_app@.len() ==> (#[trigger] by_app@[i]).1@ == moves_of(
                    moves@.take(k as int),
                    by_app@[i].0,
                ),
            forall|i: int| 0 <= i < by_app@.len() ==> (#[trigger] by_app@[i]).1@.len() > 0,
            forall|l: int| 0 <= l < k ==> served(by_app@, (#[trigger] moves@[l]).0),
    {
        let ghost done = moves@.take(k as int);
        let ghost next = moves@.take(k + 1);
        assert(next.drop_last() =~= done);
        assert(next.last() == moves@[k as int]);
        let ghost before = by_app@;
        let (pid, window, at) = moves[k];
        let mut i: usize = 0;
        while i < by_app.len() && by_app[i].0.0 != pid.0
            invariant
                i <= by_app.len(),
                by_app@ == before,
                forall|j: int| 0 <= j < i ==> (#[trigger] by_app@[j]).0 != pid,
            decreases by_app.len() - i,
        {
            i += 1;
        }
        if i < by_app.len() {
            let ghost group = by_app@[i as int];
            by_app[i].1.push((window, at));
            assert(by_app@[i as int].1@ =~= group.1@.push((window, at)));
            assert(by_app@ =~= before.update(i as int, by_app@[i as int]));
            assert(forall|j: int|
                0 <= j < by_app@.len() && j != i ==> #[trigger] by_app@[j] == before[j]);
        } else {
            let mut list: Vec<(WindowId, Point)> = Vec::new();
            list.push((window, at));
            proof {
                lemma_no_moves(done, pid, before);
            }
            assert(list@ =~= moves_of(next, pid));
            by_app.push((pid, list));
            assert(by_app@[before.len() as int].0 == pid);
            assert(forall|j: int| 0 <= j < before.len() ==> #[trigger] by_app@[j] == before[j]);
        }
        assert forall|l: int| 0 <= l < k + 1 implies served(
            by_app@,
            (#[trigger] moves@[l]).0,
        ) by {
            if l < k {
                assert(served(before, moves@[l].0));
                let j = choose|j: int|
                    0 <= j < before.len() && (#[trigger] before[j]).0 == moves@[l].0;
                assert(by_app@[j].0 == before[j].0);
            } else {
                assert(by_app@[i as int].0 == pid);
            }
        }
    }
    assert(moves@.take(moves@.len() as int) =~= moves@);
    by_app
}

proof fn lemma_no_moves(
    moves: Seq<(Pid, WindowId, Point)>,
    pid: Pid,
    groups: Seq<(Pid, Vec<(WindowId, Point)>)>,
)
    requires
        forall|i: int| 0 <= i < groups.len() ==> (#[trigger] groups[i]).0 != pid,
        forall|l: int| 0 <= l < moves.len() ==> served(groups, (#[trigger] moves[l]).0),
    ensures
        moves_of(moves, pid) == Seq::<(WindowId, Point)>::empty(),
    decreases moves.len(),
{
    if moves.len() > 0 {
        let init = moves.drop_last();
        assert forall|l: int| 0 <= l < init.len() implies served(
            groups,
            (#[trigger] init[l]).0,
        ) by {
            assert(init[l] == moves[l]);
        }
        lemma_no_moves(init, pid, groups);
        assert(served(groups, moves[moves.len() - 1].0));
    }
}

/// Where a window of the batch goes: the first entry for it counts.
pub open spec fn place_for(wins: Seq<(WindowId, Point)>, id: WindowId) -> Option<Point>
    decreases wins.len(),
{
    if wins.len() == 0 {
        None
    } else if wins[0].0 == id {
        Some(wins[0].1)
    } else {
        place_for(wins.skip(1), id)
    }
}

/// Where a window of the batch goes.
pub fn move_target(wins: &Vec<(WindowId, Point)>, id: WindowId) -> (r: Option<Point>)
    ensures
        r == place_for(wins@, id),
{
    let mut i: usize = 0;
    assert(wins@.skip(0) =~= wins@);
    while i < wins.len()
        invariant
            i <= wins.len(),
            place_for(wins@, id) == place_for(wins@.skip(i as int), id),
        decreases wins.len() - i,
    {
        assert(wins@.skip(i as int).skip(1) =~= wins@.skip(i + 1));
        if wins[i].0.0 == id.0 {
            return Some(wins[i].1);
        }
        i += 1;
    }
    None
}

// --- un-hiding ------------------------------------------------------------------------

/// A window being held in place while its app is un-hidden.
#[derive(Clone, Copy, Debug, PartialEq, Eq, Structural)]
pub struct Chased {
    pub window: WindowId,
    pub at: Point,
    /// Which of the app's windows it is.
    pub element: usize,
}

/// An un-hide that keeps writing its windows' origins until the window server
/// reports them there.
///
/// The chase must verify, never assume: an app takes a position before it
/// orders the window in, and ordering it in then overwrites the position. Every
/// such write returns success.
#[derive(Debug)]
pub struct Hold {
    pub pid: Pid,
    /// The windows to hold and where.
    pub hold: Vec<(WindowId, Point)>,
    /// Those not known to be in place yet.
    pub chase: Vec<Chased>,
    pub writes: u32,
}

/// What one un-hide's hold cost, and which windows got away.
#[derive(Debug)]
pub struct HoldOutcome {
    pub pid: Pid,
    pub writes: u32,
    pub elapsed_ms: u64,
    pub escaped: Vec<WindowId>,
}

/// What a chase does next.
#[derive(Clone, Copy, Debug, PartialEq, Eq, Structural)]
pub enum ChaseStep {
    /// Write the origin of every window still chased.
    Write,
    Over,
}

/// Of the app's first `n` windows, those to hold, with where to hold them.
pub open spec fn chased_among(
    windows: Seq<Option<WindowId>>,
    hold: Seq<(WindowId, Point)>,
    n: int,
) -> Seq<Chased>
    decreases n,
{
    if n <= 0 {
        Seq::empty()
    } else {
        let before = chased_among(windows, hold, n - 1);
        match windows[n - 1] {
            Some(id) => match place_for(hold, id) {
                Some(at) => before.push(Chased { window: id, at, element: (n - 1) as usize }),
                None => before,
            },
            None => before,
        }
    }
}

/// Those of the first `n` that are kept.
pub open spec fn kept<A>(list: Seq<A>, keep: Seq<bool>, n: int) -> Seq<A>
    decreases n,
{
    if n <= 0 {
        Seq::empty()
    } else if keep[n - 1] {
        kept(list, keep, n - 1).push(list[n - 1])
    } else {
        kept(list, keep, n - 1)
    }
}

fn retain(list: &Vec<Chased>, keep: &Vec<bool>) -> (r: Vec<Chased>)
    requires
        list@.len() == keep@.len(),
    ensures
        r@ == kept(list@, keep@, list@.len() as int),
        r@.len() <= list@.len(),
{
    let mut out: Vec<Chased> = Vec::new();
    for i in 0..list.len()
        invariant
            list@.len() == keep@.len(),
            out@ == kept(list@, keep@, i as int),
            out@.len() <= i,
    {
        if keep[i] {
            out.push(list[i]);
        }
    }
    out
}

/// The opposite of each answer.
pub open spec fn negated(s: Seq<bool>) -> Seq<bool> {
    s.map_values(|b: bool| !b)
}

fn negate(s: &Vec<bool>) -> (r: Vec<bool>)
    ensures
        r@ == negated(s@),
{
    let mut out: Vec<bool> = Vec::new();
    for i in 0..s.len()
        invariant
            out@ == negated(s@.take(i as int)),
    {
        out.push(!s[i]);
        assert(negated(s@.take(i + 1)) =~= negated(s@.take(i as int)).push(!s@[i as int]));
    }
    assert(s@.take(s@.len() as int) =~= s@);
    out
}

impl Hold {
    /// An un-hide about to begin. With nothing to hold, un-hide and be done:
    /// the app's windows are not worth a walk.
    pub fn new(pid: Pid, hold: Vec<(WindowId, Point)>) -> (r: Hold)
        ensures
            r.pid == pid,
            r.hold@ == hold@,
            r.chase@.len() == 0,
            r.writes == 0,
    {
        Hold { pid, hold, chase: Vec::new(), writes: 0 }
    }

    /// The app's windows, found before the un-hide: once it is under way the
    /// walk would queue behind it.
    pub fn resolve(&mut self, windows: &Vec<Option<WindowId>>)
        ensures
            final(self).chase@ == chased_among(windows@, old(self).hold@, windows@.len() as int),
            final(self).pid == old(self).pid,
            final(self).hold == old(self).hold,
            final(self).writes == old(self).writes,
    {
        let mut chase: Vec<Chased> = Vec::new();
        for i in 0..windows.len()
            invariant
                self.hold == old(self).hold,
                chase@ == chased_among(windows@, self.hold@, i as int),
        {
            if let Some(id) = windows[i] {
                if let Some(at) = move_target(&self.hold, id) {
                    chase.push(Chased { window: id, at, element: i });
                }
            }
        }
        self.chase = chase;
    }

    /// The window server was asked which of the chased windows are in place.
    /// One that is missing there is still on its way.
    pub fn looked(&mut self, in_place: &Vec<bool>, expired: bool) -> (r: ChaseStep)
        requires
            in_place@.len() == old(self).chase@.len(),
        ensures
            final(self).chase@ == kept(
                old(self).chase@,
                negated(in_place@),
                old(self).chase@.len() as int,
            ),
            final(self).chase@.len() <= old(self).chase@.len(),
            r == (if final(self).chase@.len() == 0 || expired {
                ChaseStep::Over
            } else {
                ChaseStep::Write
            }),
            final(self).pid == old(self).pid,
            final(self).hold == old(self).hold,
            final(self).writes == old(self).writes,
    {
        let keep = negate(in_place);
        self.chase = retain(&self.chase, &keep);
        if self.chase.len() == 0 || expired {
            ChaseStep::Over
        } else {
            ChaseStep::Write
        }
    }

    /// The origins were written. A window whose write was refused no longer
    /// exists and is not chased further.
    pub fn wrote(&mut self, accepted: &Vec<bool>)
        requires
            accepted@.len() == old(self).chase@.len(),
            old(self).writes + old(self).chase@.len() <= u32::MAX,
        ensures
            final(self).chase@ == kept(old(self).chase@, accepted@, old(self).chase@.len() as int),
            final(self).chase@.len() <= old(self).chase@.len(),
            final(self).writes == old(self).writes + old(self).chase@.len(),
            final(self).pid == old(self).pid,
            final(self).hold == old(self).hold,
    {
        self.writes = self.writes + self.chase.len() as u32;
        self.chase = retain(&self.chase, accepted);
    }

    /// The window server was asked afresh about every window to hold: what is
    /// not in place got away, whether or not it was ever chased.
    pub fn finish(self, in_place: &Vec<bool>, elapsed_ms: u64) -> (r: HoldOutcome)
        requires
            in_place@.len() == self.hold@.len(),
        ensures
            r.pid == self.pid,
            r.writes == self.writes,
            r.elapsed_ms == elapsed_ms,
            r.escaped@ == kept(
                self.hold@.map_values(|h: (WindowId, Point)| h.0),
                negated(in_place@),
                self.hold@.len() as int,
            ),
    {
        let mut escaped: Vec<WindowId> = Vec::new();
        let ghost ids = self.hold@.map_values(|h: (WindowId, Point)| h.0);
        for i in 0..self.hold.len()
            invariant
                in_place@.len() == self.hold@.len(),
                ids == self.hold@.map_values(|h: (WindowId, Point)| h.0),
                escaped@ == kept(ids, negated(in_place@), i as int),
        {
            assert(negated(in_place@)[i as int] == !in_place@[i as int]);
            assert(ids[i as int] == self.hold@[i as int].0);
            if !in_place[i] {
                escaped.push(self.hold[i].0);
            }
        }
        HoldOutcome { pid: self.pid, writes: self.writes, elapsed_ms, escaped }
    }
}

/// A hold is complete exactly when the window server has every window in place:
/// then nothing got away, and otherwise something did.
pub proof fn law_nothing_escapes_iff_all_in_place(ids: Seq<WindowId>, in_place: Seq<bool>, n: int)
    requires
        ids.len() == in_place.len(),
        0 <= n <= ids.len(),
    ensures
        kept(ids, negated(in_place), n).len() == 0 <==> forall|i: int|
            0 <= i < n ==> #[trigger] in_place[i],
    decreases n,
{
    if n > 0 {
        law_nothing_escapes_iff_all_in_place(ids, in_place, n - 1);
        assert(negated(in_place)[n - 1] == !in_place[n - 1]);
    }
}

// --- raising -----------------------------------------------------------------------------

/// The last of the elements that is this window.
pub open spec fn element_for(elements: Seq<Option<WindowId>>, id: WindowId) -> Option<int>
    decreases elements.len(),
{
    if elements.len() == 0 {
        None
    } else if elements.last() == Some(id) {
        Some(elements.len() - 1)
    } else {
        element_for(elements.drop_last(), id)
    }
}

/// The raises to issue for the first `n` targets: each target that was found,
/// with its element.
pub open spec fn raises_for(
    targets: Seq<WindowId>,
    elements: Seq<Option<WindowId>>,
    n: int,
) -> Seq<(WindowId, usize)>
    decreases n,
{
    if n <= 0 {
        Seq::empty()
    } else {
        match element_for(elements, targets[n - 1]) {
            Some(e) => raises_for(targets, elements, n - 1).push((targets[n - 1], e as usize)),
            None => raises_for(targets, elements, n - 1),
        }
    }
}

/// The raises to issue, in exactly the order of the targets. The caller waits
/// for each to land before it issues the next, and stops when it is preempted.
pub fn raise_sequenced(targets: &Vec<WindowId>, elements: &Vec<Option<WindowId>>) -> (r: Vec<
    (WindowId, usize),
>)
    ensures
        r@ == raises_for(targets@, elements@, targets@.len() as int),
{
    let mut raises: Vec<(WindowId, usize)> = Vec::new();
    for i in 0..targets.len()
        invariant
            raises@ == raises_for(targets@, elements@, i as int),
    {
        let id = targets[i];
        let mut n: usize = elements.len();
        let mut found = false;
        assert(elements@.take(n as int) =~= elements@);
        while n > 0 && !found
            invariant
                n <= elements.len(),
                found ==> n > 0 && element_for(elements@, id) == Some(n - 1),
                !found ==> element_for(elements@, id) == element_for(elements@.take(n as int), id),
            decreases n + (if found { 0int } else { 1int }),
        {
            assert(elements@.take(n as int).drop_last() =~= elements@.take(n - 1));
            let here = match elements[n - 1] {
                Some(w) => w.0 == id.0,
                None => false,
            };
            if here {
                found = true;
            } else {
                n -= 1;
            }
        }
        if found {
            raises.push((id, n - 1));
        }
    }
    raises
}

/// Raises being issued one after the other.
#[derive(Debug)]
pub struct Raising {
    order: Vec<(WindowId, usize)>,
    issued: usize,
    over: bool,
}

impl Raising {
    /// The raises still to issue, should none be refused.
    pub closed spec fn left(&self) -> Seq<(WindowId, usize)> {
        if self.over {
            Seq::empty()
        } else {
            self.order@.skip(self.issued as int)
        }
    }

    pub closed spec fn wf(&self) -> bool {
        self.issued <= self.order@.len()
    }

    /// Begin to raise these windows, given the elements there are.
    pub fn start(targets: &Vec<WindowId>, elements: &Vec<Option<WindowId>>) -> (r: Raising)
        ensures
            r.wf(),
            r.left() == raises_for(targets@, elements@, targets@.len() as int),
    {
        let r = Raising { order: raise_sequenced(targets, elements), issued: 0, over: false };
        assert(r.order@.skip(0) =~= r.order@);
        r
    }

    /// The next raise to issue. `go_on` is what was answered after the last one,
    /// and is `true` before the first; after a refusal no more are issued.
    pub fn next_raise(&mut self, go_on: bool) -> (r: Option<(WindowId, usize)>)
        requires
            old(self).wf(),
        ensures
            final(self).wf(),
            go_on && old(self).left().len() > 0 ==> r == Some(old(self).left()[0])
                && final(self).left() == old(self).left().skip(1),
            !go_on || old(self).left().len() == 0 ==> r is None && final(self).left().len() == 0,
    {
        if !go_on {
            self.over = true;
        }
        if self.over || self.issued >= self.order.len() {
            return None;
        }
        let raise = self.order[self.issued];
        self.issued = self.issued + 1;
        assert(self.order@.skip(self.issued as int) =~= old(self).left().skip(1));
        Some(raise)
    }
}

/// The raises issued, one step after the other, from a state with these left, when
/// `go_on` is what was answered last and the answers to come are these.
pub open spec fn issued(
    left: Seq<(WindowId, usize)>,
    go_on: bool,
    answers: Seq<bool>,
) -> Seq<(WindowId, usize)>
    decreases left.len(),
{
    if !go_on || left.len() == 0 {
        Seq::empty()
    } else {
        seq![left[0]] + issued(
            left.skip(1),
            answers.len() > 0 && answers[0],
            answers.skip(1),
        )
    }
}

/// Raises are issued in order and stop at the first refusal: they are a first part
/// of the order, nothing was refused before the last of them, and they are all of
/// the order unless the last was refused.
pub proof fn law_raises_stop_at_a_refusal(order: Seq<(WindowId, usize)>, answers: Seq<bool>)
    requires
        answers.len() >= order.len(),
    ensures
        issued(order, true, answers).is_prefix_of(order),
        forall|i: int|
            0 <= i < issued(order, true, answers).len() - 1 ==> #[trigger] answers[i],
        issued(order, true, answers) != order ==> {
            &&& issued(order, true, answers).len() > 0
            &&& !answers[issued(order, true, answers).len() - 1]
        },
    decreases order.len(),
{
    reveal_with_fuel(issued, 2);
    let all = issued(order, true, answers);
    if order.len() == 0 {
        assert(all =~= order);
    } else {
        let rest = order.skip(1);
        let after = answers.skip(1);
        if answers[0] {
            law_raises_stop_at_a_refusal(rest, after);
            let tail = issued(rest, true, after);
            assert(all =~= seq![order[0]] + tail);
            assert(tail =~= rest.subrange(0, tail.len() as int));
            assert forall|i: int| 0 <= i < all.len() implies all[i] == order[i] by {
                if i > 0 {
                    assert(all[i] == tail[i - 1]);
                    assert(tail[i - 1] == rest.subrange(0, tail.len() as int)[i - 1]);
                }
            }
            assert forall|i: int| 0 <= i < all.len() - 1 implies #[trigger] answers[i] by {
                if i > 0 {
                    assert(after[i - 1]);
                }
            }
            if tail == rest {
                assert(all =~= order);
            } else {
                assert(answers[all.len() - 1] == after[tail.len() - 1]);
            }
        } else {
            assert(all =~= seq![order[0]]);
        }
        assert(all =~= order.subrange(0, all.len() as int));
    }
}

/// Beside the window's number the record says how long it is, which phase it is
/// of, and nothing else but the marks that make it one.
pub proof fn law_key_record_is_marked_as_one(wid: u32, phase: u8, i: int)
    requires
        0 <= i < 0xf8,
    ensures
        key_byte(wid, phase, 0x04) == 0xf8,
        key_byte(wid, phase, 0x08) == phase,
        key_byte(wid, phase, 0x3a) == 0x10,
        0x20 <= i <= 0x2f ==> key_byte(wid, phase, i) == 0xff,
        i != 0x04 && i != 0x08 && i != 0x3a && !(0x20 <= i <= 0x2f) && !(0x3c <= i <= 0x3f)
            ==> key_byte(wid, phase, i) == 0,
{
}

/// An app is asked for its own moves, all of them, in order.
pub proof fn law_apps_get_their_own_moves(moves: Seq<(Pid, WindowId, Point)>, pid: Pid)
    ensures
        moves_of(moves, pid) == moves.filter(
            |m: (Pid, WindowId, Point)| m.0 == pid,
        ).map_values(|m: (Pid, WindowId, Point)| (m.1, m.2)),
    decreases moves.len(),
{
    reveal(Seq::filter);
    let mine = |m: (Pid, WindowId, Point)| m.0 == pid;
    let place = |m: (Pid, WindowId, Point)| (m.1, m.2);
    if moves.len() > 0 {
        law_apps_get_their_own_moves(moves.drop_last(), pid);
        let before = moves.drop_last().filter(mine);
        if moves.last().0 == pid {
            assert(moves.filter(mine) =~= before.push(moves.last()));
            assert(before.push(moves.last()).map_values(place) =~= before.map_values(place).push(
                (moves.last().1, moves.last().2),
            ));
        } else {
            assert(moves.filter(mine) =~= before);
        }
    } else {
        assert(moves.filter(mine).map_values(place) =~= Seq::empty());
    }
}

/// A window goes where the first entry for it says, and nowhere if there is
/// none.
pub proof fn law_the_first_place_counts(wins: Seq<(WindowId, Point)>, id: WindowId, k: int)
    requires
        0 <= k <= wins.len(),
        forall|i: int| 0 <= i < k ==> (#[trigger] wins[i]).0 != id,
        k < wins.len() ==> wins[k].0 == id,
    ensures
        k < wins.len() ==> place_for(wins, id) == Some(wins[k].1),
        k == wins.len() ==> place_for(wins, id) is None,
    decreases k,
{
    if k > 0 {
        assert(wins[0].0 != id);
        law_the_first_place_counts(wins.skip(1), id, k - 1);
    }
}

/// Exactly the app's windows that are to be held are chased, each as the element
/// it is and to the place it is to be held at, in the order they were found.
pub proof fn law_exactly_the_held_windows_are_chased(
    windows: Seq<Option<WindowId>>,
    hold: Seq<(WindowId, Point)>,
    n: int,
)
    requires
        0 <= n <= windows.len() <= usize::MAX,
    ensures
        forall|k: int|
            0 <= k < chased_among(windows, hold, n).len() ==> {
                let c = #[trigger] chased_among(windows, hold, n)[k];
                &&& c.element < n
                &&& windows[c.element as int] == Some(c.window)
                &&& place_for(hold, c.window) == Some(c.at)
            },
        forall|j: int, k: int|
            0 <= j < k < chased_among(windows, hold, n).len() ==> (#[trigger] chased_among(
                windows,
                hold,
                n,
            )[j]).element < (#[trigger] chased_among(windows, hold, n)[k]).element,
        forall|i: int|
            0 <= i < n && (#[trigger] windows[i]) is Some && place_for(hold, windows[i]->Some_0)
                is Some ==> exists|k: int|
                0 <= k < chased_among(windows, hold, n).len() && (#[trigger] chased_among(
                    windows,
                    hold,
                    n,
                )[k]).element == i,
    decreases n,
{
    if n > 0 {
        law_exactly_the_held_windows_are_chased(windows, hold, n - 1);
        let before = chased_among(windows, hold, n - 1);
        let after = chased_among(windows, hold, n);
        assert forall|i: int|
            0 <= i < n && (#[trigger] windows[i]) is Some && place_for(hold, windows[i]->Some_0)
                is Some implies exists|k: int|
            0 <= k < after.len() && (#[trigger] after[k]).element == i by {
            if i < n - 1 {
                let k = choose|k: int|
                    0 <= k < before.len() && (#[trigger] before[k]).element == i;
                assert(after[k].element == i);
            } else {
                assert(after[before.len() as int].element == i);
            }
        }
    }
}

/// What is kept is what was answered `true` for, in order.
pub proof fn law_exactly_what_is_answered_for_is_kept<A>(list: Seq<A>, keep: Seq<bool>, n: int)
    requires
        0 <= n <= list.len(),
        list.len() == keep.len(),
    ensures
        kept(list, keep, n) == Seq::new(n as nat, |i: int| (list[i], keep[i])).filter(
            |e: (A, bool)| e.1,
        ).map_values(|e: (A, bool)| e.0),
    decreases n,
{
    reveal(Seq::filter);
    let yes = |e: (A, bool)| e.1;
    let item = |e: (A, bool)| e.0;
    let all = Seq::new(n as nat, |i: int| (list[i], keep[i]));
    if n > 0 {
        law_exactly_what_is_answered_for_is_kept(list, keep, n - 1);
        let init = Seq::new((n - 1) as nat, |i: int| (list[i], keep[i]));
        assert(all.drop_last() =~= init);
        assert(all.last() == (list[n - 1], keep[n - 1]));
        if keep[n - 1] {
            assert(all.filter(yes) =~= init.filter(yes).push(all.last()));
            assert(init.filter(yes).push(all.last()).map_values(item) =~= init.filter(
                yes,
            ).map_values(item).push(list[n - 1]));
        } else {
            assert(all.filter(yes) =~= init.filter(yes));
        }
    } else {
        assert(all =~= Seq::empty());
        assert(all.filter(yes).map_values(item) =~= Seq::empty());
    }
}

/// Each answer is turned round, in its place.
pub proof fn law_answers_are_turned_round(s: Seq<bool>, i: int)
    requires
        0 <= i < s.len(),
    ensures
        negated(s).len() == s.len(),
        negated(s)[i] != s[i],
{
}

/// A window is raised by the last element that is it; one with no element is
/// not.
pub proof fn law_the_last_element_counts(elements: Seq<Option<WindowId>>, id: WindowId, k: int)
    requires
        -1 <= k < elements.len(),
        forall|i: int| k < i < elements.len() ==> elements[i] != Some(id),
        k >= 0 ==> elements[k] == Some(id),
    ensures
        k >= 0 ==> element_for(elements, id) == Some(k),
        k < 0 ==> element_for(elements, id) is None,
    decreases elements.len(),
{
    if k < elements.len() - 1 && elements.len() > 0 {
        assert(elements[elements.len() - 1] != Some(id));
        law_the_last_element_counts(elements.drop_last(), id, k);
    }
}

/// The targets that have an element are raised, in the order given, each by an
/// element that is it.
pub proof fn law_targets_are_raised_in_order(
    targets: Seq<WindowId>,
    elements: Seq<Option<WindowId>>,
    n: int,
)
    requires
        0 <= n <= targets.len(),
        elements.len() <= usize::MAX,
    ensures
        raises_for(targets, elements, n).map_values(|r: (WindowId, usize)| r.0) == targets.take(
            n,
        ).filter(|t: WindowId| elements.contains(Some(t))),
        forall|k: int|
            0 <= k < raises_for(targets, elements, n).len() ==> {
                let r = #[trigger] raises_for(targets, elements, n)[k];
                &&& r.1 < elements.len()
                &&& elements[r.1 as int] == Some(r.0)
                &&& forall|j: int| r.1 < j < elements.len() ==> elements[j] != Some(r.0)
            },
    decreases n,
{
    reveal(Seq::filter);
    let there = |t: WindowId| elements.contains(Some(t));
    let id = |r: (WindowId, usize)| r.0;
    let after = raises_for(targets, elements, n);
    if n > 0 {
        law_targets_are_raised_in_order(targets, elements, n - 1);
        let before = raises_for(targets, elements, n - 1);
        let t = targets[n - 1];
        assert(targets.take(n).drop_last() =~= targets.take(n - 1));
        assert(targets.take(n).last() == t);
        lemma_element_is_it(elements, t);
        if element_for(elements, t) is Some {
            assert(after.map_values(id) =~= before.map_values(id).push(t));
            assert(targets.take(n).filter(there) =~= targets.take(n - 1).filter(there).push(t));
        } else {
            assert(targets.take(n).filter(there) =~= targets.take(n - 1).filter(there));
        }
    } else {
        assert(after.map_values(id) =~= Seq::empty());
        assert(targets.take(n).filter(there) =~= Seq::empty());
    }
}

proof fn lemma_element_is_it(elements: Seq<Option<WindowId>>, id: WindowId)
    ensures
        element_for(elements, id) is Some <==> elements.contains(Some(id)),
        element_for(elements, id) matches Some(e) ==> 0 <= e < elements.len() && elements[e]
            == Some(id),
        element_for(elements, id) matches Some(e) ==> forall|j: int|
            e < j < elements.len() ==> elements[j] != Some(id),
    decreases elements.len(),
{
    if elements.len() > 0 {
        let init = elements.drop_last();
        lemma_element_is_it(init, id);
        if elements.last() == Some(id) {
            assert(elements[elements.len() - 1] == Some(id));
        } else {
            if elements.contains(Some(id)) {
                let k = choose|k: int| 0 <= k < elements.len() && elements[k] == Some(id);
                assert(init[k] == Some(id));
            }
            if init.contains(Some(id)) {
                let k = choose|k: int| 0 <= k < init.len() && init[k] == Some(id);
                assert(elements[k] == Some(id));
                let e = element_for(init, id)->Some_0;
                assert forall|j: int| e < j < elements.len() implies elements[j]
                    != Some(id) by {
                    if j < init.len() {
                        assert(init[j] == elements[j]);
                    }
                }
            }
        }
    }
}

/// An app is served exactly if one of the groups is addressed to it.
pub proof fn law_served_apps_have_a_group(
    a: Seq<(Pid, Vec<(WindowId, Point)>)>,
    group: (Pid, Vec<(WindowId, Point)>),
    pid: Pid,
)
    ensures
        !served(Seq::empty(), pid),
        served(a.push(group), pid) <==> served(a, pid) || group.0 == pid,
{
    let more = a.push(group);
    if served(more, pid) {
        let i = choose|i: int| 0 <= i < more.len() && (#[trigger] more[i]).0 == pid;
        if i < a.len() {
            assert(a[i].0 == pid);
        }
    }
    if served(a, pid) {
        let i = choose|i: int| 0 <= i < a.len() && (#[trigger] a[i]).0 == pid;
        assert(more[i].0 == pid);
    }
    assert(more[a.len() as int] == group);
}

} // verus!
