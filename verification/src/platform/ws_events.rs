//! The window server's push stream: landings and space changes, delivered
//! instead of polled.
//!
//! Events are hints that wake a read-back, never the authority. That is what
//! makes every way of losing one harmless: a dropped entry or a dead stream
//! degrades to polling, never to a missed landing.

use crate::ordered::{ascending, insert_ordered};
use std::collections::VecDeque;
use vstd::prelude::*;

verus! {

/// Focused or raised: comes per window, even for a raise in the background.
pub const EV_FOCUSED_OR_RAISED: u32 = 808;

/// Ordered in: the window's pixels joined the stack.
pub const EV_ORDERED_IN: u32 = 815;

/// Space changes come in two kinds; either alone is incomplete.
pub const EV_SPACE_CURRENT_CHANGED: u32 = 1329;

pub const EV_ACTIVE_SPACE_CHANGED: u32 = 1401;

/// Nanoseconds a waiter sleeps at most before it looks again.
pub const WAIT_SLICE_NS: u64 = 20_000_000;

/// Entries kept for late readers.
pub const RING_CAP: usize = 512;

/// Nanoseconds that keep two hints about spaces apart: changes come in bursts.
pub const SPACE_HINT_GAP_NS: u64 = 150_000_000;

/// How a wait ended.
#[derive(Clone, Copy, Debug, PartialEq, Eq, Structural)]
pub enum WaitOutcome {
    /// Worth a read-back now.
    Hint,
    Timeout,
    Cancelled,
}

/// The mailbox between the stream and those who wait for a landing: a sequence
/// that only grows, of which the last entries are kept. Waiters remember how
/// far they have read, so that one log serves any number of them.
#[derive(Debug)]
pub struct RaiseSignals {
    next_seq: u64,
    entries: VecDeque<(u64, u32)>,
}

/// What a mailbox holds: how many entries there ever were, and the windows of
/// those that are kept, which are the latest.
#[verifier::ext_equal]
pub struct SignalsView {
    pub next_seq: nat,
    pub kept: Seq<u32>,
}

impl SignalsView {
    /// The mailbox after these entries.
    pub open spec fn of(history: Seq<u32>) -> SignalsView {
        SignalsView {
            next_seq: history.len(),
            kept: if history.len() <= RING_CAP {
                history
            } else {
                history.skip(history.len() - RING_CAP)
            },
        }
    }

    /// The mailbox with one entry more.
    pub open spec fn pushed(self, wid: u32) -> SignalsView {
        let kept = self.kept.push(wid);
        SignalsView {
            next_seq: self.next_seq + 1,
            kept: if kept.len() > RING_CAP {
                kept.skip(1)
            } else {
                kept
            },
        }
    }

    /// The first entry that is kept.
    pub open spec fn base(self) -> int {
        self.next_seq - self.kept.len()
    }

    /// The entry numbered `k`, one of those kept.
    pub open spec fn entry(self, k: int) -> u32 {
        self.kept[k - self.base()]
    }

    /// The entry numbered `k` is kept, and one who has read up to `cursor` has
    /// not read it.
    pub open spec fn unread(self, cursor: u64, k: int) -> bool {
        cursor <= k && self.base() <= k < self.next_seq
    }

    /// Where one stands who had read up to `cursor` and has read on.
    pub open spec fn read_to(self, cursor: u64) -> u64 {
        if self.next_seq > cursor {
            self.next_seq as u64
        } else {
            cursor
        }
    }

    /// A reader who has read up to `cursor` has something to look at: an entry
    /// that matches, or one that was dropped before it was read.
    pub open spec fn hints(self, cursor: u64, matches: spec_fn(u32) -> bool) -> bool {
        self.next_seq > cursor && (cursor < self.base() || exists|i: int|
            0 <= i < self.kept.len() && self.base() + i >= cursor && matches(
                #[trigger] self.kept[i],
            ))
    }
}

/// Whatever `test` returns is what `matches` says.
pub open spec fn tests_as<F: Fn(u32) -> bool>(test: F, matches: spec_fn(u32) -> bool) -> bool {
    forall|w: u32, b: bool| #[trigger] test.ensures((w,), b) ==> b == matches(w)
}

impl RaiseSignals {
    /// What the mailbox holds.
    pub closed spec fn view(&self) -> SignalsView {
        SignalsView {
            next_seq: self.next_seq as nat,
            kept: self.entries@.map_values(|e: (u64, u32)| e.1),
        }
    }

    /// The entries kept are numbered up to the latest, and no more are kept
    /// than may be.
    pub closed spec fn wf(&self) -> bool {
        &&& self.entries@.len() <= RING_CAP
        &&& self.entries@.len() <= self.next_seq
        &&& forall|i: int|
            0 <= i < self.entries@.len() ==> (#[trigger] self.entries@[i]).0 == self.next_seq
                - self.entries@.len() + i
    }

    pub fn new() -> (r: RaiseSignals)
        ensures
            r.wf(),
            r@ == SignalsView::of(Seq::empty()),
    {
        let r = RaiseSignals { next_seq: 0, entries: VecDeque::new() };
        assert(r@.kept =~= Seq::<u32>::empty());
        r
    }

    /// Where the log ends; a waiter starts reading from here.
    pub fn cursor(&self) -> (r: u64)
        ensures
            r == self@.next_seq,
    {
        self.next_seq
    }

    pub fn push(&mut self, wid: u32)
        requires
            old(self).wf(),
            old(self)@.next_seq < u64::MAX,
        ensures
            final(self).wf(),
            final(self)@ == old(self)@.pushed(wid),
            final(self)@.next_seq == old(self)@.next_seq + 1,
            old(self)@.kept.len() < 512 ==> final(self)@.kept == old(self)@.kept.push(wid),
            old(self)@.kept.len() == 512 ==> final(self)@.kept == old(self)@.kept.skip(1).push(wid),
    {
        let ghost before = self.entries@;
        let seq: u64 = self.next_seq;
        self.next_seq = seq + 1;
        self.entries.push_back((seq, wid));
        let ghost grown = self.entries@;
        if self.entries.len() > RING_CAP {
            let _ = self.entries.pop_front();
            assert(self.entries@ =~= grown.skip(1));
        }
        assert(self@ =~= old(self)@.pushed(wid));
        assert(old(self)@.kept.push(wid).skip(1) =~= old(self)@.kept.skip(1).push(wid)
            || old(self)@.kept.len() == 0);
    }

    /// One turn of a wait for an entry past `*cursor` that satisfies `test`.
    /// `None` means nothing is due yet: sleep for [`wait_slice`], or until the
    /// next push, and take another turn. The cursor moves past everything
    /// examined. Only entries not read before are put to `test`.
    pub fn wait<F: Fn(u32) -> bool>(
        &self,
        cursor: &mut u64,
        test: F,
        expired: bool,
        cancelled: bool,
    ) -> (r: Option<WaitOutcome>)
        requires
            self.wf(),
            forall|k: int|
                self@.unread(*old(cursor), k) ==> test.requires((#[trigger] self@.entry(k),)),
        ensures
            *final(cursor) == self@.read_to(*old(cursor)),
            forall|matches: spec_fn(u32) -> bool|
                #![trigger tests_as(test, matches)]
                tests_as(test, matches) ==> r == (if self@.hints(*old(cursor), matches) {
                    Some(WaitOutcome::Hint)
                } else if cancelled {
                    Some(WaitOutcome::Cancelled)
                } else if expired {
                    Some(WaitOutcome::Timeout)
                } else {
                    None
                }),
    {
        let from: u64 = *cursor;
        if self.next_seq > from {
            let base: u64 = self.next_seq - self.entries.len() as u64;
            let outrun = from < base;
            let mut matched = false;
            let mut i: usize = 0;
            while i < self.entries.len()
                invariant
                    self.wf(),
                    i <= self.entries@.len(),
                    self.next_seq > from,
                    forall|k: int|
                        self@.unread(from, k) ==> test.requires((#[trigger] self@.entry(k),)),
                    forall|matches: spec_fn(u32) -> bool|
                        #![trigger tests_as(test, matches)]
                        tests_as(test, matches) ==> (matched <==> exists|j: int|
                            0 <= j < i && self@.base() + j >= from && matches(
                                #[trigger] self@.kept[j],
                            )),
                decreases self.entries@.len() - i,
            {
                let entry = self.entries[i];
                assert(self@.kept[i as int] == entry.1);
                assert(entry.0 == self@.base() + i);
                assert(self@.entry(self@.base() + i) == entry.1);
                if !matched && entry.0 >= from {
                    matched = test(entry.1);
                }
                i += 1;
            }
            *cursor = self.next_seq;
            if outrun || matched {
                return Some(WaitOutcome::Hint);
            }
        }
        if cancelled {
            return Some(WaitOutcome::Cancelled);
        }
        if expired {
            return Some(WaitOutcome::Timeout);
        }
        None
    }
}

impl Default for RaiseSignals {
    fn default() -> (r: RaiseSignals)
        ensures
            r.wf(),
            r@ == SignalsView::of(Seq::empty()),
    {
        RaiseSignals::new()
    }
}

/// How long to sleep before the next turn, `left` nanoseconds before the
/// deadline.
pub fn wait_slice(left: u64) -> (r: u64)
    ensures
        r == (if left < WAIT_SLICE_NS {
            left
        } else {
            WAIT_SLICE_NS
        }),
        r <= left,
        r <= 20_000_000,
        r == left || r == 20_000_000,
{
    if left < WAIT_SLICE_NS {
        left
    } else {
        WAIT_SLICE_NS
    }
}

/// Pushing is adding to the history: the mailbox is a function of what was
/// pushed, however much of it has been dropped.
pub proof fn law_mailbox_is_its_history(history: Seq<u32>, wid: u32)
    ensures
        SignalsView::of(history).pushed(wid) == SignalsView::of(history.push(wid)),
{
    assert(SignalsView::of(history).pushed(wid) =~= SignalsView::of(history.push(wid)));
}

/// No landing is lost: if anything pushed since the reader last read matches,
/// the reader is told to look, dropped entries or not.
pub proof fn law_no_landing_is_lost(
    history: Seq<u32>,
    cursor: u64,
    matches: spec_fn(u32) -> bool,
    k: int,
)
    requires
        cursor <= k < history.len(),
        matches(history[k]),
    ensures
        SignalsView::of(history).hints(cursor, matches),
{
    let v = SignalsView::of(history);
    if cursor >= v.base() {
        assert(v.kept[k - v.base()] == history[k]);
    }
}

/// No entry is read twice by one who keeps the cursor: what one wait could put to
/// its test, no later wait can, however much has been pushed in between.
pub proof fn law_entries_are_read_once(
    history: Seq<u32>,
    more: Seq<u32>,
    cursor: u64,
    k: int,
)
    requires
        history.len() <= u64::MAX,
        SignalsView::of(history).unread(cursor, k),
    ensures
        !SignalsView::of(history + more).unread(SignalsView::of(history).read_to(cursor), k),
        SignalsView::of(history).entry(k) == history[k],
{
}

/// A reader who has kept up is only woken for what matches.
pub proof fn law_filter_applies_to_a_reader_who_kept_up(
    history: Seq<u32>,
    cursor: u64,
    matches: spec_fn(u32) -> bool,
)
    requires
        history.len() - cursor <= RING_CAP,
        forall|k: int| cursor <= k < history.len() ==> !matches(#[trigger] history[k]),
    ensures
        !SignalsView::of(history).hints(cursor, matches),
{
    let v = SignalsView::of(history);
    assert forall|i: int| 0 <= i < v.kept.len() && v.base() + i >= cursor implies !matches(
        #[trigger] v.kept[i],
    ) by {
        assert(v.kept[i] == history[v.base() + i]);
    }
}

// --- what the stream delivers -----------------------------------------------------

/// What one delivery comes to.
#[derive(Clone, Copy, Debug, PartialEq, Eq, Structural)]
pub enum WsReaction {
    /// Tell the mailbox about this window.
    Raised(u32),
    /// Ask the engine for a look, as "space_event".
    SpaceHint,
    Nothing,
}

/// Four bytes, the lowest first.
pub open spec fn le_u32(b: Seq<u8>) -> u32 {
    (b[0] + b[1] * 0x100 + b[2] * 0x1_0000 + b[3] * 0x100_0000) as u32
}

/// When the last hint about spaces was passed on.
#[derive(Clone, Copy, Debug, PartialEq, Eq, Structural)]
pub struct SpaceHints {
    pub last: Option<u64>,
}

impl SpaceHints {
    /// A hint at `now` would be the first of its burst.
    pub open spec fn due(self, now: u64) -> bool {
        self.last matches Some(t) ==> now - t >= SPACE_HINT_GAP_NS
    }

    /// What one delivery comes to. Every landing counts; of a burst of space
    /// changes only the first does.
    pub fn on_event(&mut self, event: u32, payload: &Vec<u8>, now: u64) -> (r: WsReaction)
        ensures
            event == EV_FOCUSED_OR_RAISED || event == EV_ORDERED_IN ==> *final(self) == *old(self)
                && r == (if payload@.len() >= 4 {
                WsReaction::Raised(le_u32(payload@))
            } else {
                WsReaction::Nothing
            }),
            event == EV_SPACE_CURRENT_CHANGED || event == EV_ACTIVE_SPACE_CHANGED ==> if old(self).due(now) {
                r == WsReaction::SpaceHint && final(self).last == Some(now)
            } else {
                r == WsReaction::Nothing && *final(self) == *old(self)
            },
            event != EV_FOCUSED_OR_RAISED && event != EV_ORDERED_IN && event
                != EV_SPACE_CURRENT_CHANGED && event != EV_ACTIVE_SPACE_CHANGED ==> r
                == WsReaction::Nothing && *final(self) == *old(self),
            r is Raised <==> (event == 808 || event == 815) && payload@.len() >= 4,
            r is SpaceHint <==> (event == 1329 || event == 1401) && (old(self).last is None || now
                - old(self).last->0 >= 150_000_000),
            r is SpaceHint ==> final(self).last == Some(now),
            r !is SpaceHint ==> *final(self) == *old(self),
    {
        if event == EV_FOCUSED_OR_RAISED || event == EV_ORDERED_IN {
            if payload.len() >= 4 {
                let wid: u32 = payload[0] as u32 + payload[1] as u32 * 0x100 + payload[2] as u32
                    * 0x1_0000 + payload[3] as u32 * 0x100_0000;
                WsReaction::Raised(wid)
            } else {
                WsReaction::Nothing
            }
        } else if event == EV_SPACE_CURRENT_CHANGED || event == EV_ACTIVE_SPACE_CHANGED {
            let due = match self.last {
                Some(t) => now.saturating_sub(t) >= SPACE_HINT_GAP_NS,
                None => true,
            };
            if due {
                self.last = Some(now);
                WsReaction::SpaceHint
            } else {
                WsReaction::Nothing
            }
        } else {
            WsReaction::Nothing
        }
    }
}

// --- the watch list -----------------------------------------------------------------

/// The windows the stream was last asked about. Asking replaces the whole list.
#[derive(Debug)]
pub struct WatchList {
    watched: Vec<u32>,
}

impl WatchList {
    /// The windows, in ascending order.
    pub closed spec fn view(&self) -> Seq<u32> {
        self.watched@
    }

    /// Each window once, in ascending order.
    pub closed spec fn wf(&self) -> bool {
        ascending(self.watched@)
    }

    pub fn new() -> (r: WatchList)
        ensures
            r.wf(),
            r@ == Seq::<u32>::empty(),
    {
        WatchList { watched: Vec::new() }
    }

    /// Keep the stream about exactly these windows. `Some` is the list to send,
    /// which is only due when it changed.
    pub fn subscribe(&mut self, ids: Vec<u32>) -> (r: Option<Vec<u32>>)
        requires
            old(self).wf(),
        ensures
            final(self).wf(),
            ascending(final(self)@),
            forall|w: u32| #[trigger] final(self)@.contains(w) <==> ids@.contains(w),
            r is None <==> final(self)@ == old(self)@,
            r matches Some(list) ==> list@ == final(self)@,
    {
        let mut list: Vec<u32> = Vec::new();
        for i in 0..ids.len()
            invariant
                ascending(list@),
                forall|w: u32| #[trigger] list@.contains(w) <==> ids@.take(i as int).contains(w),
        {
            let ghost before = list@;
            insert_ordered(&mut list, ids[i]);
            assert forall|w: u32| #[trigger] list@.contains(w) <==> ids@.take(i + 1).contains(w) by {
                let done = ids@.take(i as int);
                let next = ids@.take(i + 1);
                assert(next =~= done.push(ids@[i as int]));
                assert(next[i as int] == ids@[i as int]);
                assert(before.contains(w) <==> done.contains(w));
                if done.contains(w) {
                    let k = choose|k: int| 0 <= k < done.len() && done[k] == w;
                    assert(next[k] == w);
                }
                if next.contains(w) && w != ids@[i as int] {
                    let k = choose|k: int| 0 <= k < next.len() && next[k] == w;
                    assert(done[k] == w);
                }
            }
        }
        assert(ids@.take(ids@.len() as int) =~= ids@);
        if same_list(&self.watched, &list) {
            return None;
        }
        let mut copy: Vec<u32> = Vec::new();
        for i in 0..list.len()
            invariant
                copy@ == list@.take(i as int),
        {
            copy.push(list[i]);
            assert(list@.take(i + 1) =~= list@.take(i as int).push(list@[i as int]));
        }
        assert(list@.take(list@.len() as int) =~= list@);
        self.watched = list;
        Some(copy)
    }
}

fn same_list(a: &Vec<u32>, b: &Vec<u32>) -> (r: bool)
    ensures
        r == (a@ == b@),
{
    if a.len() != b.len() {
        return false;
    }
    for i in 0..a.len()
        invariant
            a@.len() == b@.len(),
            forall|j: int| 0 <= j < i ==> a@[j] == b@[j],
    {
        if a[i] != b[i] {
            return false;
        }
    }
    assert(a@ =~= b@);
    true
}

/// What the list holds is all that matters: asked about the same windows in
/// another order, or about some of them twice, it does not change.
pub proof fn law_watch_list_depends_on_the_windows_alone(a: Seq<u32>, b: Seq<u32>)
    requires
        ascending(a),
        ascending(b),
        forall|w: u32| a.contains(w) <==> b.contains(w),
    ensures
        a == b,
{
    crate::ordered::lemma_ascending_unique(a, b);
}

/// The mailbox counts everything and keeps the latest 512 entries, in order.
pub proof fn law_the_latest_entries_are_kept(history: Seq<u32>, i: int)
    requires
        0 <= i < SignalsView::of(history).kept.len(),
    ensures
        ({
            let v = SignalsView::of(history);
            &&& v.next_seq == history.len()
            &&& history.len() <= 512 ==> v.kept.len() == history.len()
            &&& history.len() > 512 ==> v.kept.len() == 512
            &&& v.kept[i] == history[history.len() - v.kept.len() + i]
        }),
{
}

/// A reader is told to look exactly if something past what they have read
/// matches, or if more than 512 entries have come since, so that something may
/// have been missed. Reading on leads past everything, and never back.
pub proof fn law_readers_are_told_exactly_when_to_look(
    history: Seq<u32>,
    cursor: u64,
    matches: spec_fn(u32) -> bool,
)
    requires
        history.len() <= u64::MAX,
    ensures
        SignalsView::of(history).hints(cursor, matches) <==> {
            ||| history.len() - cursor > 512
            ||| exists|k: int| cursor <= k < history.len() && matches(#[trigger] history[k])
        },
        SignalsView::of(history).read_to(cursor) == (if history.len() > cursor {
            history.len() as int
        } else {
            cursor as int
        }),
{
    let v = SignalsView::of(history);
    if exists|k: int| cursor <= k < history.len() && matches(#[trigger] history[k]) {
        let k = choose|k: int| cursor <= k < history.len() && matches(#[trigger] history[k]);
        law_no_landing_is_lost(history, cursor, matches, k);
    }
    if v.hints(cursor, matches) && history.len() - cursor <= 512 {
        let i = choose|i: int|
            0 <= i < v.kept.len() && v.base() + i >= cursor && matches(#[trigger] v.kept[i]);
        assert(history[v.base() + i] == v.kept[i]);
    }
}

/// A window's number reads back from its four bytes, the lowest first.
pub proof fn law_window_numbers_read_back(id: u32, rest: Seq<u8>)
    ensures
        le_u32(
            seq![
                (id % 0x100) as u8,
                (id / 0x100 % 0x100) as u8,
                (id / 0x1_0000 % 0x100) as u8,
                (id / 0x100_0000) as u8,
            ] + rest,
        ) == id,
{
}

/// The first change of a burst is passed on; those within 150 milliseconds of
/// the last that was are not, to the nanosecond.
pub proof fn law_space_hints_keep_apart(hints: SpaceHints, now: u64)
    ensures
        hints.last is None ==> hints.due(now),
        hints.last matches Some(t) ==> (hints.due(now) <==> now >= t + 150_000_000),
{
}

} // verus!
