//! The daemon's one serial loop, as decisions.
//!
//! Messages queue while the engine works, so it takes them in batches. A batch
//! is planned before anything is done: hints among presses are merged and looked
//! into ahead of those presses, since a look reads the present wherever its hint
//! sat, and the presses become one burst. Any other message keeps its place. A
//! burst of steps folds into a single jump where the jump lands where the steps
//! would have.
//!
//! What one event sets off is a cascade: effects lead to results and to fresh
//! looks, which are processed in the order they arose, up to a limit.

use crate::clock::Clock;
use crate::logger::{effect_op, HotkeyBatch};
use crate::ports::{following, Deed, Effector, Entry, Journal, RestackStats, WorldSource};
use crate::replay::{ends_in, faithful};
use crate::vocab::{
    effect_views, AxHintKind, Effect, EffectView, Gesture, HotkeyAction, OpId, OpOutcome, Pid,
    RescanTrigger, Ts, WorkspaceId,
};
use std::collections::VecDeque;
use vstd::prelude::*;

verus! {

/// What the outside world sends the engine.
#[derive(Debug)]
pub enum Msg {
    /// A command, and the monotonic nanosecond it was given at.
    Hotkey(HotkeyAction, u64),
    Rescan(RescanTrigger),
    Rescue,
    /// Leave rescue with the saved state.
    Engage,
    /// Leave rescue with a blank model.
    EngageFresh,
    SaveState,
    Gesture(Gesture),
    RestackStats(RestackStats),
    /// Stop the loop and close the run.
    Shutdown,
}

/// What happened, as the core is told. `W` is an observation of the world.
#[derive(Clone, Debug)]
pub enum Event<W> {
    Hotkey { at: Ts, action: HotkeyAction },
    WorldObserved { at: Ts, trigger: RescanTrigger, snap: W },
    EffectResult { at: Ts, op: OpId, outcome: OpOutcome },
    RescueEngaged { at: Ts },
    Engaged { at: Ts },
    Gesture { at: Ts, gesture: Gesture },
}

// --- planning a batch ---------------------------------------------------------

/// One thing a batch does.
#[derive(Debug)]
pub enum Item {
    /// Observe the world, for this reason.
    Look(RescanTrigger),
    /// Presses with nothing but hints between them: each command with the time
    /// it was given at.
    Burst(Vec<(HotkeyAction, u64)>),
    /// Any other message.
    React(Msg),
}

/// [`Item`] with its presses as a sequence.
pub enum ItemView {
    Look(RescanTrigger),
    Burst(Seq<(HotkeyAction, u64)>),
    React(Msg),
}

impl View for Item {
    type V = ItemView;

    open spec fn view(&self) -> ItemView {
        match *self {
            Item::Look(trigger) => ItemView::Look(trigger),
            Item::Burst(presses) => ItemView::Burst(presses@),
            Item::React(msg) => ItemView::React(msg),
        }
    }
}

/// What to do about the messages that had queued.
#[derive(Debug)]
pub struct Batch {
    /// What to do, in order.
    pub items: Vec<Item>,
    /// Close the run afterwards instead of waiting for more.
    pub shutdown: bool,
}

/// A plan in the making: the items that stand, and the hints and presses since
/// the last message that was neither.
#[verifier::ext_equal]
pub struct Plan {
    pub items: Seq<ItemView>,
    pub hints: Seq<RescanTrigger>,
    pub presses: Seq<(HotkeyAction, u64)>,
    pub shutdown: bool,
}

/// The looks to take for these hints, as items.
pub open spec fn looks_for(hints: Seq<RescanTrigger>) -> Seq<ItemView> {
    merged(hints).map_values(|t: RescanTrigger| ItemView::Look(t))
}

/// The item that presses make, if there are any.
pub open spec fn burst_of(presses: Seq<(HotkeyAction, u64)>) -> Seq<ItemView> {
    if presses.len() == 0 {
        Seq::empty()
    } else {
        seq![ItemView::Burst(presses)]
    }
}

impl Plan {
    /// The plan of no messages.
    pub open spec fn empty() -> Plan {
        Plan {
            items: Seq::empty(),
            hints: Seq::empty(),
            presses: Seq::empty(),
            shutdown: false,
        }
    }

    /// All items: hints become looks ahead of the presses they came among.
    pub open spec fn closed(self) -> Seq<ItemView> {
        self.items + looks_for(self.hints) + burst_of(self.presses)
    }

    /// One message more. A message that is neither a hint nor a press keeps its
    /// place among all others. After a shutdown nothing is heard.
    pub open spec fn then_msg(self, msg: Msg) -> Plan {
        if self.shutdown {
            self
        } else {
            match msg {
                Msg::Shutdown => Plan { shutdown: true, ..self },
                Msg::Rescan(trigger) => Plan { hints: self.hints.push(trigger), ..self },
                Msg::Hotkey(action, pressed) => Plan {
                    presses: self.presses.push((action, pressed)),
                    ..self
                },
                _ => Plan {
                    items: self.closed().push(ItemView::React(msg)),
                    ..Plan::empty()
                },
            }
        }
    }
}

/// The messages, planned in the order they came.
pub open spec fn planned(msgs: Seq<Msg>) -> Plan
    decreases msgs.len(),
{
    if msgs.len() == 0 {
        Plan::empty()
    } else {
        planned(msgs.drop_last()).then_msg(msgs.last())
    }
}

/// The app whose new window a hint announces. Only such a hint licenses
/// treating a window as new, so it must survive merging.
pub open spec fn created_by(hint: RescanTrigger) -> Option<Option<Pid>> {
    match hint {
        RescanTrigger::AxHint { pid, kind: AxHintKind::WindowCreated } => Some(pid),
        _ => None,
    }
}

/// The creation hints, the first of each app.
pub open spec fn creations(hints: Seq<RescanTrigger>) -> Seq<RescanTrigger>
    decreases hints.len(),
{
    if hints.len() == 0 {
        Seq::empty()
    } else {
        let before = creations(hints.drop_last());
        let hint = hints.last();
        if created_by(hint) is Some && !announced(before, created_by(hint)) {
            before.push(hint)
        } else {
            before
        }
    }
}

/// One of the hints announces this app's new window.
pub open spec fn announced(hints: Seq<RescanTrigger>, app: Option<Option<Pid>>) -> bool {
    exists|i: int| 0 <= i < hints.len() && created_by(#[trigger] hints[i]) == app
}

/// The looks the hints come down to: one for each app that created a window,
/// else a single one for all of them.
pub open spec fn merged(hints: Seq<RescanTrigger>) -> Seq<RescanTrigger> {
    if creations(hints).len() > 0 {
        creations(hints)
    } else if hints.len() > 0 {
        seq![hints[0]]
    } else {
        Seq::empty()
    }
}

/// The views of a list of items.
pub open spec fn item_views(items: Seq<Item>) -> Seq<ItemView> {
    items.map_values(|i: Item| i@)
}

fn created_app(hint: &RescanTrigger) -> (r: Option<Option<Pid>>)
    ensures
        r == created_by(*hint),
{
    match hint {
        RescanTrigger::AxHint { pid, kind: AxHintKind::WindowCreated } => Some(*pid),
        _ => None,
    }
}

fn already_announced(hints: &Vec<RescanTrigger>, app: Option<Pid>) -> (r: bool)
    ensures
        r == announced(hints@, Some(app)),
{
    let mut i: usize = 0;
    while i < hints.len()
        invariant
            i <= hints.len(),
            forall|j: int| 0 <= j < i ==> created_by(#[trigger] hints@[j]) != Some(app),
        decreases hints.len() - i,
    {
        if let Some(other) = created_app(&hints[i]) {
            if crate::vocab::same_pid(other, app) {
                assert(created_by(hints@[i as int]) == Some(app));
                return true;
            }
        }
        i += 1;
    }
    false
}

/// The hints and presses gathered since the last message that was neither.
struct Gathered {
    /// The creation hints, the first of each app.
    created: Vec<RescanTrigger>,
    /// The first hint that announces nothing.
    first: Option<RescanTrigger>,
    presses: Vec<(HotkeyAction, u64)>,
}

impl Gathered {
    /// Holds all there is to know of these hints and presses.
    spec fn holds(self, hints: Seq<RescanTrigger>, presses: Seq<(HotkeyAction, u64)>) -> bool {
        &&& self.created@ == creations(hints)
        &&& self.created@.len() == 0 && hints.len() == 0 ==> self.first is None
        &&& self.created@.len() == 0 && hints.len() > 0 ==> self.first == Some(hints[0])
        &&& self.presses@ == presses
    }

    fn new() -> (r: Gathered)
        ensures
            r.holds(Seq::empty(), Seq::empty()),
    {
        let r = Gathered { created: Vec::new(), first: None, presses: Vec::new() };
        assert(r.created@ =~= creations(Seq::empty()));
        assert(r.presses@ =~= Seq::empty());
        r
    }

    fn hint(&mut self, trigger: RescanTrigger, Ghost(hints): Ghost<Seq<RescanTrigger>>)
        requires
            old(self).holds(hints, old(self).presses@),
        ensures
            final(self).holds(hints.push(trigger), old(self).presses@),
    {
        assert(hints.push(trigger).drop_last() =~= hints);
        match created_app(&trigger) {
            Some(app) => {
                if !already_announced(&self.created, app) {
                    self.created.push(trigger);
                }
            },
            None => {
                if self.first.is_none() {
                    self.first = Some(trigger);
                }
            },
        }
    }

    /// Add what was gathered to the items: the looks, and after them the burst.
    fn close(self, items: &mut Vec<Item>, Ghost(hints): Ghost<Seq<RescanTrigger>>)
        requires
            self.holds(hints, self.presses@),
            bursts_hold_presses(old(items)@),
        ensures
            item_views(final(items)@) == item_views(old(items)@) + looks_for(hints) + burst_of(
                self.presses@,
            ),
            bursts_hold_presses(final(items)@),
    {
        let Gathered { created, first, presses } = self;
        let ghost before = item_views(items@);
        let ghost as_item = |t: RescanTrigger| ItemView::Look(t);
        let looks: Vec<RescanTrigger> = if created.len() > 0 {
            created
        } else {
            match first {
                Some(t) => vec![t],
                None => Vec::new(),
            }
        };
        assert(looks@ =~= merged(hints));
        let ghost all = looks@;
        assert(item_views(items@) =~= before + all.take(0).map_values(as_item));
        for look in it: looks
            invariant
                it.seq() == all,
                as_item == (|t: RescanTrigger| ItemView::Look(t)),
                bursts_hold_presses(items@),
                item_views(items@) == before + all.take(it.index()).map_values(as_item),
        {
            let ghost k = it.index();
            let ghost was = items@;
            items.push(Item::Look(look));
            assert(item_views(items@) =~= item_views(was).push(ItemView::Look(look)));
            assert(all.take(k + 1).map_values(as_item) =~= all.take(k).map_values(as_item).push(
                ItemView::Look(look),
            ));
        }
        assert(all.take(all.len() as int) =~= all);
        let ghost was = items@;
        if presses.len() > 0 {
            items.push(Item::Burst(presses));
        }
        assert(item_views(items@) =~= item_views(was) + burst_of(presses@));
    }
}

/// No burst is empty.
pub open spec fn bursts_hold_presses(items: Seq<Item>) -> bool {
    forall|i: int|
        0 <= i < items.len() ==> (#[trigger] items[i] matches Item::Burst(p) ==> p@.len() > 0)
}

/// Plan the messages that queued while the engine was busy.
pub fn plan_batch(queue: VecDeque<Msg>) -> (r: Batch)
    ensures
        item_views(r.items@) == planned(queue@).closed(),
        r.shutdown == planned(queue@).shutdown,
        bursts_hold_presses(r.items@),
{
    let mut queue = queue;
    let ghost all = queue@;
    let ghost mut k: int = 0;
    let mut items: Vec<Item> = Vec::new();
    let mut open = Gathered::new();
    let mut shutdown = false;
    assert(all.take(0) =~= Seq::empty());
    assert(item_views(items@) =~= Seq::empty());
    loop
        invariant
            0 <= k <= all.len(),
            queue@ == all.skip(k),
            planned(all.take(k)).shutdown == shutdown,
            planned(all.take(k)).items == item_views(items@),
            open.holds(planned(all.take(k)).hints, planned(all.take(k)).presses),
            bursts_hold_presses(items@),
        ensures
            k == all.len(),
        decreases all.len() - k,
    {
        let ghost before = planned(all.take(k));
        match queue.pop_front() {
            None => {
                break;
            },
            Some(msg) => {
                assert(msg == all[k]);
                assert(all.take(k + 1).drop_last() =~= all.take(k));
                assert(all.take(k + 1).last() == msg);
                assert(all.skip(k).subrange(1, all.skip(k).len() as int) =~= all.skip(k + 1));
                proof {
                    k = k + 1;
                }
                if !shutdown {
                    match msg {
                        Msg::Shutdown => {
                            shutdown = true;
                        },
                        Msg::Rescan(trigger) => {
                            open.hint(trigger, Ghost(before.hints));
                        },
                        Msg::Hotkey(action, pressed) => {
                            open.presses.push((action, pressed));
                        },
                        other => {
                            open.close(&mut items, Ghost(before.hints));
                            let ghost was = items@;
                            items.push(Item::React(other));
                            assert(item_views(items@) =~= item_views(was).push(
                                ItemView::React(other),
                            ));
                            open = Gathered::new();
                        },
                    }
                }
            },
        }
    }
    assert(all.take(k) =~= all);
    open.close(&mut items, Ghost(planned(all).hints));
    Batch { items, shutdown }
}

/// The messages before the first shutdown.
pub open spec fn heard(msgs: Seq<Msg>) -> Seq<Msg>
    decreases msgs.len(),
{
    if msgs.len() == 0 || msgs[0] is Shutdown {
        Seq::empty()
    } else {
        seq![msgs[0]] + heard(msgs.skip(1))
    }
}

/// The messages an item stands for; a look stands for none.
pub open spec fn item_msgs(item: ItemView) -> Seq<Msg> {
    match item {
        ItemView::Look(_) => Seq::empty(),
        ItemView::Burst(presses) => presses.map_values(
            |p: (HotkeyAction, u64)| Msg::Hotkey(p.0, p.1),
        ),
        ItemView::React(msg) => seq![msg],
    }
}

/// The messages a list of items stands for.
pub open spec fn items_msgs(items: Seq<ItemView>) -> Seq<Msg>
    decreases items.len(),
{
    if items.len() == 0 {
        Seq::empty()
    } else {
        items_msgs(items.drop_last()) + item_msgs(items.last())
    }
}

/// The messages that are not hints.
pub open spec fn acted_on(msgs: Seq<Msg>) -> Seq<Msg>
    decreases msgs.len(),
{
    if msgs.len() == 0 {
        Seq::empty()
    } else if msgs.last() is Rescan {
        acted_on(msgs.drop_last())
    } else {
        acted_on(msgs.drop_last()).push(msgs.last())
    }
}

proof fn lemma_heard_push(msgs: Seq<Msg>, msg: Msg)
    ensures
        heard(msgs).len() < msgs.len() ==> heard(msgs.push(msg)) == heard(msgs),
        heard(msgs).len() == msgs.len() && msg is Shutdown ==> heard(msgs.push(msg)) == heard(msgs),
        heard(msgs).len() == msgs.len() && !(msg is Shutdown) ==> heard(msgs.push(msg)) == heard(
            msgs,
        ).push(msg),
        heard(msgs).len() <= msgs.len(),
    decreases msgs.len(),
{
    if msgs.len() == 0 {
        assert(msgs.push(msg).skip(1) =~= Seq::empty());
        assert(heard(Seq::<Msg>::empty()) =~= Seq::empty());
        if !(msg is Shutdown) {
            assert(heard(msgs.push(msg)) =~= seq![msg]);
        }
    } else if !(msgs[0] is Shutdown) {
        assert(msgs.push(msg).skip(1) =~= msgs.skip(1).push(msg));
        lemma_heard_push(msgs.skip(1), msg);
        assert(heard(msgs.push(msg)) =~= seq![msgs[0]] + heard(msgs.skip(1).push(msg)));
        if heard(msgs).len() == msgs.len() && !(msg is Shutdown) {
            assert(heard(msgs.push(msg)) =~= heard(msgs).push(msg));
        }
    }
}

proof fn lemma_items_msgs_append(a: Seq<ItemView>, b: Seq<ItemView>)
    ensures
        items_msgs(a + b) == items_msgs(a) + items_msgs(b),
    decreases b.len(),
{
    if b.len() == 0 {
        assert(a + b =~= a);
        assert(items_msgs(a) + items_msgs(b) =~= items_msgs(a));
    } else {
        assert((a + b).drop_last() =~= a + b.drop_last());
        lemma_items_msgs_append(a, b.drop_last());
        assert(items_msgs(a + b) =~= items_msgs(a) + items_msgs(b));
    }
}

proof fn lemma_looks_stand_for_nothing(items: Seq<ItemView>)
    requires
        forall|i: int| 0 <= i < items.len() ==> #[trigger] items[i] is Look,
    ensures
        items_msgs(items) == Seq::<Msg>::empty(),
    decreases items.len(),
{
    if items.len() > 0 {
        assert(items[items.len() - 1] is Look);
        lemma_looks_stand_for_nothing(items.drop_last());
        assert(items_msgs(items) =~= Seq::empty());
    }
}

proof fn lemma_closed_msgs(p: Plan)
    ensures
        items_msgs(p.closed()) == items_msgs(p.items) + p.presses.map_values(
            |x: (HotkeyAction, u64)| Msg::Hotkey(x.0, x.1),
        ),
{
    let looks = looks_for(p.hints);
    let burst = burst_of(p.presses);
    lemma_items_msgs_append(p.items + looks, burst);
    lemma_items_msgs_append(p.items, looks);
    lemma_looks_stand_for_nothing(looks);
    reveal_with_fuel(items_msgs, 2);
    if p.presses.len() > 0 {
        assert(burst.drop_last() =~= Seq::empty());
        assert(burst.last() == ItemView::Burst(p.presses));
    }
    assert(items_msgs(burst) =~= p.presses.map_values(
        |x: (HotkeyAction, u64)| Msg::Hotkey(x.0, x.1),
    ));
    assert(items_msgs(p.items) + items_msgs(looks) =~= items_msgs(p.items));
}

/// Planning loses no message but hints and reorders none: the presses and the
/// other messages of a batch are those before the first shutdown, in the order
/// they came.
pub proof fn law_batch_keeps_every_message(msgs: Seq<Msg>)
    ensures
        items_msgs(planned(msgs).closed()) == acted_on(heard(msgs)),
        planned(msgs).shutdown == (heard(msgs).len() < msgs.len()),
    decreases msgs.len(),
{
    let as_msg = |x: (HotkeyAction, u64)| Msg::Hotkey(x.0, x.1);
    lemma_closed_msgs(planned(msgs));
    if msgs.len() > 0 {
        let init = msgs.drop_last();
        let msg = msgs.last();
        law_batch_keeps_every_message(init);
        lemma_closed_msgs(planned(init));
        lemma_heard_push(init, msg);
        assert(init.push(msg) =~= msgs);
        let before = planned(init);
        let after = planned(msgs);
        if !before.shutdown && !(msg is Shutdown) {
            assert(heard(msgs).drop_last() =~= heard(init));
            if msg is Hotkey {
                assert(after.presses.map_values(as_msg) =~= before.presses.map_values(as_msg).push(
                    msg,
                ));
                assert(items_msgs(after.closed()) =~= items_msgs(before.closed()).push(msg));
            } else if !(msg is Rescan) {
                assert(after.items.drop_last() =~= before.closed());
                assert(after.presses.map_values(as_msg) =~= Seq::empty());
                assert(items_msgs(after.closed()) =~= items_msgs(before.closed()).push(msg));
            }
        }
    } else {
        assert(planned(msgs).presses.map_values(as_msg) =~= Seq::empty());
        assert(items_msgs(planned(msgs).closed()) =~= Seq::empty());
    }
}

/// A message that is neither a hint nor a press.
pub open spec fn fences(msg: Msg) -> bool {
    !(msg is Rescan) && !(msg is Hotkey) && !(msg is Shutdown)
}

/// Nothing crosses a message that is neither a hint nor a press: what came
/// before it is planned as if nothing followed, and what came after as if
/// nothing had come before. A rescue ahead of a hint is dealt with before the
/// look.
pub proof fn law_nothing_crosses_a_fence(before: Seq<Msg>, msg: Msg, after: Seq<Msg>)
    requires
        fences(msg),
        !planned(before).shutdown,
    ensures
        planned(before.push(msg) + after).closed() == planned(before).closed().push(
            ItemView::React(msg),
        ) + planned(after).closed(),
        planned(before.push(msg) + after).shutdown == planned(after).shutdown,
{
    lemma_planned_after_fence(before, msg, after);
    let whole = planned(before.push(msg) + after);
    let rest = planned(after);
    assert(whole.closed() =~= planned(before).closed().push(ItemView::React(msg))
        + rest.closed());
}

proof fn lemma_planned_after_fence(before: Seq<Msg>, msg: Msg, after: Seq<Msg>)
    requires
        fences(msg),
        !planned(before).shutdown,
    ensures
        ({
            let whole = planned(before.push(msg) + after);
            let rest = planned(after);
            let head = planned(before).closed().push(ItemView::React(msg));
            &&& whole.items == head + rest.items
            &&& whole.hints == rest.hints
            &&& whole.presses == rest.presses
            &&& whole.shutdown == rest.shutdown
        }),
    decreases after.len(),
{
    let head = planned(before).closed().push(ItemView::React(msg));
    if after.len() == 0 {
        assert(before.push(msg) + after =~= before.push(msg));
        assert(before.push(msg).drop_last() =~= before);
        assert(head + planned(after).items =~= head);
    } else {
        let all = before.push(msg) + after;
        assert(all.drop_last() =~= before.push(msg) + after.drop_last());
        assert(all.last() == after.last());
        lemma_planned_after_fence(before, msg, after.drop_last());
        let whole = planned(all.drop_last());
        let rest = planned(after.drop_last());
        assert(whole.closed() =~= head + rest.closed());
        assert(planned(all).items =~= head + planned(after).items);
    }
}

proof fn lemma_ends_fenced(msgs: Seq<Msg>)
    ensures
        planned(msgs).items.len() > 0 ==> planned(msgs).items.last() is React,
        forall|i: int|
            0 <= i < planned(msgs).items.len() - 1 && #[trigger] planned(msgs).items[i] is Burst
                ==> planned(msgs).items[i + 1] is React,
    decreases msgs.len(),
{
    if msgs.len() > 0 {
        lemma_ends_fenced(msgs.drop_last());
        let p = planned(msgs.drop_last());
        let q = planned(msgs);
        assert forall|i: int|
            0 <= i < q.items.len() - 1 && #[trigger] q.items[i] is Burst implies q.items[i
            + 1] is React by {
            if q.items != p.items {
                let n = p.items.len() as int;
                let m = looks_for(p.hints).len() as int;
                if i < n - 1 {
                    assert(q.items[i] == p.items[i]);
                    assert(q.items[i + 1] == p.items[i + 1]);
                } else if i < n {
                    assert(q.items[i] == p.items[i]);
                } else if i < n + m {
                    assert(q.items[i] == looks_for(p.hints)[i - n]);
                }
            }
        }
    }
}

/// A burst is as long as it can be: what follows one is a message that is
/// neither a hint nor a press.
pub proof fn law_bursts_are_maximal(msgs: Seq<Msg>, i: int)
    requires
        0 <= i < planned(msgs).closed().len() - 1,
        planned(msgs).closed()[i] is Burst,
    ensures
        planned(msgs).closed()[i + 1] is React,
{
    lemma_ends_fenced(msgs);
    let p = planned(msgs);
    let n = p.items.len() as int;
    let m = looks_for(p.hints).len() as int;
    if i < n - 1 {
        assert(p.closed()[i] == p.items[i]);
        assert(p.closed()[i + 1] == p.items[i + 1]);
    } else if i < n {
        assert(p.closed()[i] == p.items[i]);
    } else if i < n + m {
        assert(p.closed()[i] == looks_for(p.hints)[i - n]);
    }
}

/// Every app that announced a new window among these hints gets its own look, no
/// app gets two, and where there are hints at least one look is taken.
pub proof fn law_looks_serve_every_created_window(hints: Seq<RescanTrigger>)
    ensures
        forall|i: int|
            0 <= i < hints.len() && created_by(#[trigger] hints[i]) is Some ==> announced(
                merged(hints),
                created_by(hints[i]),
            ),
        forall|i: int, j: int|
            0 <= i < j < merged(hints).len() ==> created_by(#[trigger] merged(hints)[i])
                != created_by(#[trigger] merged(hints)[j]),
        merged(hints).len() == 0 <==> hints.len() == 0,
        merged(hints).len() <= hints.len(),
    decreases hints.len(),
{
    lemma_creations(hints);
}

proof fn lemma_creations(hints: Seq<RescanTrigger>)
    ensures
        forall|i: int|
            0 <= i < hints.len() && created_by(#[trigger] hints[i]) is Some ==> announced(
                creations(hints),
                created_by(hints[i]),
            ),
        forall|i: int|
            0 <= i < creations(hints).len() ==> created_by(#[trigger] creations(hints)[i]) is Some,
        forall|i: int, j: int|
            0 <= i < j < creations(hints).len() ==> created_by(#[trigger] creations(hints)[i])
                != created_by(#[trigger] creations(hints)[j]),
        creations(hints).len() <= hints.len(),
    decreases hints.len(),
{
    if hints.len() > 0 {
        let init = hints.drop_last();
        lemma_creations(init);
        let before = creations(init);
        assert forall|i: int|
            0 <= i < hints.len() && created_by(#[trigger] hints[i]) is Some implies announced(
            creations(hints),
            created_by(hints[i]),
        ) by {
            if i < init.len() {
                assert(hints[i] == init[i]);
                let j = choose|j: int|
                    0 <= j < before.len() && created_by(#[trigger] before[j]) == created_by(
                        hints[i],
                    );
                assert(creations(hints)[j] == before[j]);
            } else if announced(before, created_by(hints[i])) {
                let j = choose|j: int|
                    0 <= j < before.len() && created_by(#[trigger] before[j]) == created_by(
                        hints[i],
                    );
                assert(creations(hints)[j] == before[j]);
            } else {
                assert(creations(hints)[before.len() as int] == hints[i]);
            }
        }
    }
}

// --- folding a burst ------------------------------------------------------------

/// How far a command steps between workspaces, if that is all it does.
pub open spec fn step_of(action: HotkeyAction) -> Option<int> {
    match action {
        HotkeyAction::WorkspacePrev => Some(-1int),
        HotkeyAction::WorkspaceNext => Some(1int),
        _ => None,
    }
}

/// Where the first `k` steps lead from `start`.
pub open spec fn position(actions: Seq<HotkeyAction>, start: int, k: int) -> int
    decreases k,
{
    if k <= 0 {
        start
    } else {
        position(actions, start, k - 1) + (match step_of(actions[k - 1]) {
            Some(d) => d,
            None => 0,
        })
    }
}

/// The commands open with exactly `n` steps.
pub open spec fn leads_with(actions: Seq<HotkeyAction>, n: int) -> bool {
    &&& 0 <= n <= actions.len()
    &&& forall|i: int| 0 <= i < n ==> step_of(#[trigger] actions[i]) is Some
    &&& n < actions.len() ==> step_of(actions[n]) is None
}

/// How many steps the commands open with.
pub open spec fn lead(actions: Seq<HotkeyAction>) -> int
    decreases actions.len(),
{
    if actions.len() == 0 || step_of(actions[0]) is None {
        0
    } else {
        1 + lead(actions.skip(1))
    }
}

/// The first `n` steps never leave the workspaces there are.
pub open spec fn stays_inside(actions: Seq<HotkeyAction>, start: int, count: u8, n: int) -> bool {
    forall|k: int| 0 <= k <= n ==> 1 <= #[trigger] position(actions, start, k) <= count
}

/// The opening steps can become one jump: there are several, and none of them
/// leaves the workspaces there are.
pub open spec fn foldable(
    actions: Seq<HotkeyAction>,
    current: Option<WorkspaceId>,
    count: u8,
) -> bool {
    &&& current is Some
    &&& lead(actions) >= 2
    &&& stays_inside(actions, current->Some_0.0 as int, count, lead(actions))
}

/// What a burst comes down to. Steps that lead back to where they began come
/// down to nothing.
pub open spec fn folded(
    actions: Seq<HotkeyAction>,
    current: Option<WorkspaceId>,
    count: u8,
) -> Seq<HotkeyAction> {
    if foldable(actions, current, count) {
        let start = current->Some_0.0 as int;
        let end = position(actions, start, lead(actions));
        let rest = actions.skip(lead(actions));
        if end == start {
            rest
        } else {
            seq![HotkeyAction::WorkspaceSwitchTo(WorkspaceId(end as u8))] + rest
        }
    } else {
        actions
    }
}

/// The commands of a burst, without their times.
pub open spec fn actions_of(presses: Seq<(HotkeyAction, u64)>) -> Seq<HotkeyAction> {
    presses.map_values(|p: (HotkeyAction, u64)| p.0)
}

proof fn lemma_lead(actions: Seq<HotkeyAction>, n: int)
    requires
        leads_with(actions, n),
    ensures
        lead(actions) == n,
    decreases actions.len(),
{
    if n > 0 {
        assert(step_of(actions[0]) is Some);
        let rest = actions.skip(1);
        assert forall|i: int| 0 <= i < n - 1 implies step_of(#[trigger] rest[i]) is Some by {
            assert(rest[i] == actions[i + 1]);
        }
        lemma_lead(rest, n - 1);
    }
}

/// Fold a burst: `current` is the workspace shown, `count` how many there are.
pub fn fold_burst(presses: &Vec<(HotkeyAction, u64)>, current: Option<WorkspaceId>, count: u8) -> (r:
    Vec<HotkeyAction>)
    ensures
        r@ == folded(actions_of(presses@), current, count),
{
    let ghost actions = actions_of(presses@);
    let mut n: usize = 0;
    let mut inside = true;
    let start: i64 = match current {
        Some(w) => w.0 as i64,
        None => 0,
    };
    // Kept within 0..=256 once outside, so that it cannot run away.
    let mut at: i64 = start;
    if start < 1 || start > count as i64 {
        inside = false;
    }
    let mut stepping = true;
    assert(position(actions, start as int, 0) == start);
    while n < presses.len() && stepping
        invariant
            n <= presses.len(),
            actions == actions_of(presses@),
            start == (match current {
                Some(w) => w.0 as int,
                None => 0,
            }),
            0 <= start <= 255,
            forall|i: int| 0 <= i < n ==> step_of(#[trigger] actions[i]) is Some,
            !stepping ==> n < presses.len() && step_of(actions[n as int]) is None,
            inside <==> stays_inside(actions, start as int, count, n as int),
            inside ==> at == position(actions, start as int, n as int),
        decreases presses.len() - n + (if stepping { 1int } else { 0int }),
    {
        assert(actions[n as int] == presses@[n as int].0);
        let step: Option<i64> = match presses[n].0 {
            HotkeyAction::WorkspacePrev => Some(-1),
            HotkeyAction::WorkspaceNext => Some(1),
            _ => None,
        };
        match step {
            Some(d) => {
                if inside {
                    assert(1 <= position(actions, start as int, n as int) <= count);
                    at = at + d;
                    assert(at == position(actions, start as int, n + 1));
                    if at < 1 || at > count as i64 {
                        inside = false;
                    }
                }
                n += 1;
            },
            None => {
                stepping = false;
            },
        }
    }
    proof {
        lemma_lead(actions, n as int);
    }
    let mut out: Vec<HotkeyAction> = Vec::new();
    let mut i: usize = 0;
    if current.is_some() && n >= 2 && inside {
        assert(1 <= position(actions, start as int, n as int) <= count);
        if at != start {
            out.push(HotkeyAction::WorkspaceSwitchTo(WorkspaceId(at as u8)));
        }
        i = n;
    }
    let ghost head = out@;
    let ghost from = i as int;
    while i < presses.len()
        invariant
            0 <= from <= i <= presses.len(),
            actions == actions_of(presses@),
            out@ == head + actions.subrange(from, i as int),
        decreases presses.len() - i,
    {
        out.push(presses[i].0);
        i += 1;
        assert(actions.subrange(from, i as int) =~= actions.subrange(from, i - 1).push(
            actions[i - 1],
        ));
    }
    assert(actions.subrange(from, actions.len() as int) =~= actions.skip(from));
    assert(actions.skip(0) =~= actions);
    assert(out@ =~= folded(actions, current, count));
    out
}

/// Where a run of commands leads, when each moves as `moves` says.
pub open spec fn walk(
    moves: spec_fn(int, HotkeyAction) -> int,
    start: int,
    actions: Seq<HotkeyAction>,
) -> int
    decreases actions.len(),
{
    if actions.len() == 0 {
        start
    } else {
        moves(walk(moves, start, actions.drop_last()), actions.last())
    }
}

proof fn lemma_walk_append(
    moves: spec_fn(int, HotkeyAction) -> int,
    start: int,
    a: Seq<HotkeyAction>,
    b: Seq<HotkeyAction>,
)
    ensures
        walk(moves, start, a + b) == walk(moves, walk(moves, start, a), b),
    decreases b.len(),
{
    if b.len() == 0 {
        assert(a + b =~= a);
    } else {
        assert((a + b).drop_last() =~= a + b.drop_last());
        lemma_walk_append(moves, start, a, b.drop_last());
    }
}

proof fn lemma_walk_steps(
    moves: spec_fn(int, HotkeyAction) -> int,
    start: int,
    count: u8,
    actions: Seq<HotkeyAction>,
    k: int,
)
    requires
        0 <= k <= lead(actions),
        lead(actions) <= actions.len(),
        forall|i: int| 0 <= i < lead(actions) ==> step_of(#[trigger] actions[i]) is Some,
        forall|p: int|
            1 <= p < count ==> #[trigger] moves(p, HotkeyAction::WorkspaceNext) == p + 1,
        forall|p: int|
            1 < p <= count ==> #[trigger] moves(p, HotkeyAction::WorkspacePrev) == p - 1,
        stays_inside(actions, start, count, lead(actions)),
    ensures
        walk(moves, start, actions.take(k)) == position(actions, start, k),
    decreases k,
{
    if k > 0 {
        lemma_walk_steps(moves, start, count, actions, k - 1);
        assert(actions.take(k).drop_last() =~= actions.take(k - 1));
        assert(step_of(actions[k - 1]) is Some);
        assert(1 <= position(actions, start, k) <= count);
        assert(1 <= position(actions, start, k - 1) <= count);
        let p = position(actions, start, k - 1);
        if actions[k - 1] == HotkeyAction::WorkspaceNext {
            assert(moves(p, HotkeyAction::WorkspaceNext) == p + 1);
        } else {
            assert(moves(p, HotkeyAction::WorkspacePrev) == p - 1);
        }
    }
}

proof fn lemma_lead_leads(actions: Seq<HotkeyAction>)
    ensures
        leads_with(actions, lead(actions)),
    decreases actions.len(),
{
    if actions.len() > 0 && step_of(actions[0]) is Some {
        let rest = actions.skip(1);
        lemma_lead_leads(rest);
        assert forall|i: int| 0 <= i < lead(actions) implies step_of(
            #[trigger] actions[i],
        ) is Some by {
            if i > 0 {
                assert(actions[i] == rest[i - 1]);
            }
        }
        if lead(actions) < actions.len() {
            assert(actions[lead(actions)] == rest[lead(rest)]);
        }
    }
}

/// Folding changes how many switches a burst makes, never where it leads:
/// whatever the other commands do, as long as a step moves by one between two
/// workspaces and a direct jump goes where it is told.
pub proof fn law_folded_burst_leads_to_the_same_place(
    moves: spec_fn(int, HotkeyAction) -> int,
    actions: Seq<HotkeyAction>,
    current: WorkspaceId,
    count: u8,
)
    requires
        forall|p: int|
            1 <= p < count ==> #[trigger] moves(p, HotkeyAction::WorkspaceNext) == p + 1,
        forall|p: int|
            1 < p <= count ==> #[trigger] moves(p, HotkeyAction::WorkspacePrev) == p - 1,
        forall|p: int, w: WorkspaceId|
            1 <= w.0 <= count ==> #[trigger] moves(p, HotkeyAction::WorkspaceSwitchTo(w)) == w.0,
    ensures
        walk(moves, current.0 as int, folded(actions, Some(current), count)) == walk(
            moves,
            current.0 as int,
            actions,
        ),
{
    if foldable(actions, Some(current), count) {
        let start = current.0 as int;
        let n = lead(actions);
        let end = position(actions, start, n);
        lemma_lead_leads(actions);
        lemma_walk_steps(moves, start, count, actions, n);
        assert(actions =~= actions.take(n) + actions.skip(n));
        lemma_walk_append(moves, start, actions.take(n), actions.skip(n));
        assert(1 <= position(actions, start, n) <= count);
        if end != start {
            let jump = seq![HotkeyAction::WorkspaceSwitchTo(WorkspaceId(end as u8))];
            lemma_walk_append(moves, start, jump, actions.skip(n));
            assert(jump.drop_last() =~= Seq::empty());
            assert(walk(moves, start, jump) == moves(start, jump[0])) by {
                reveal_with_fuel(walk, 2);
            }
            assert(moves(start, HotkeyAction::WorkspaceSwitchTo(WorkspaceId(end as u8))) == end);
        }
    }
}

/// A lone press is never folded: it reaches the core as it was given.
pub proof fn law_single_press_is_kept(
    action: HotkeyAction,
    current: Option<WorkspaceId>,
    count: u8,
)
    ensures
        folded(seq![action], current, count) == seq![action],
{
    reveal_with_fuel(lead, 2);
    assert(seq![action].skip(1) =~= Seq::empty());
}

/// Folding never adds a press.
pub proof fn law_folding_never_adds(
    actions: Seq<HotkeyAction>,
    current: Option<WorkspaceId>,
    count: u8,
)
    ensures
        folded(actions, current, count).len() <= actions.len(),
{
    lemma_lead_leads(actions);
}

/// How long a press had waited by `now`.
pub open spec fn waited(press: (HotkeyAction, u64), now: u64) -> int {
    if now >= press.1 {
        now - press.1
    } else {
        0
    }
}

/// The record of a burst: how many presses there were, how many events they
/// became, and how long they had queued by `now`. `next_seq` is the number the
/// next logged step gets.
pub open spec fn is_burst_record(
    presses: Seq<(HotkeyAction, u64)>,
    pumped: Seq<HotkeyAction>,
    next_seq: u64,
    now: u64,
    r: HotkeyBatch,
) -> bool {
    &&& r.first_seq == (if pumped.len() == 0 {
        None
    } else {
        Some(next_seq)
    })
    &&& r.presses == presses.len()
    &&& r.pumped == pumped.len()
    &&& forall|i: int|
        0 <= i < presses.len() ==> r.newest_wait <= waited(#[trigger] presses[i], now)
            <= r.oldest_wait
    &&& exists|i: int|
        0 <= i < presses.len() && waited(#[trigger] presses[i], now) == r.oldest_wait
    &&& exists|i: int|
        0 <= i < presses.len() && waited(#[trigger] presses[i], now) == r.newest_wait
}

/// The record a burst leaves in the log.
pub fn burst_record(
    presses: &Vec<(HotkeyAction, u64)>,
    pumped: &Vec<HotkeyAction>,
    next_seq: u64,
    now: u64,
) -> (r: HotkeyBatch)
    requires
        presses@.len() > 0,
    ensures
        is_burst_record(presses@, pumped@, next_seq, now, r),
{
    let mut oldest: u64 = now.saturating_sub(presses[0].1);
    let mut newest: u64 = oldest;
    let mut i: usize = 1;
    assert(waited(presses@[0], now) == oldest);
    while i < presses.len()
        invariant
            1 <= i <= presses.len(),
            forall|j: int|
                0 <= j < i ==> newest <= waited(#[trigger] presses@[j], now) <= oldest,
            exists|j: int| 0 <= j < i && waited(#[trigger] presses@[j], now) == oldest,
            exists|j: int| 0 <= j < i && waited(#[trigger] presses@[j], now) == newest,
        decreases presses.len() - i,
    {
        let w: u64 = now.saturating_sub(presses[i].1);
        assert(waited(presses@[i as int], now) == w);
        if w > oldest {
            oldest = w;
        }
        if w < newest {
            newest = w;
        }
        i += 1;
    }
    HotkeyBatch {
        first_seq: if pumped.len() == 0 {
            None
        } else {
            Some(next_seq)
        },
        presses: presses.len(),
        pumped: pumped.len(),
        oldest_wait: oldest,
        newest_wait: newest,
    }
}

// --- reacting ---------------------------------------------------------------------

/// What the engine does about one message.
#[derive(Debug)]
pub enum Reaction<W> {
    /// Observe the world, for this reason.
    Look(RescanTrigger),
    /// Tell the core, from a blank model if `fresh`.
    Pump { fresh: bool, event: Event<W> },
    /// Write the current arrangement down.
    Save,
    /// Log a restack's timing.
    Record(RestackStats),
    /// Close the run.
    Stop,
}

/// What the engine does about one message arriving at `at`.
pub open spec fn reaction_to<W>(msg: Msg, at: Ts) -> Reaction<W> {
    match msg {
        Msg::Hotkey(action, _) => Reaction::Pump {
            fresh: false,
            event: Event::Hotkey { at, action },
        },
        Msg::Rescan(trigger) => Reaction::Look(trigger),
        Msg::Rescue => Reaction::Pump { fresh: false, event: Event::RescueEngaged { at } },
        Msg::Engage => Reaction::Pump { fresh: false, event: Event::Engaged { at } },
        Msg::EngageFresh => Reaction::Pump { fresh: true, event: Event::Engaged { at } },
        Msg::SaveState => Reaction::Save,
        Msg::Gesture(gesture) => Reaction::Pump {
            fresh: false,
            event: Event::Gesture { at, gesture },
        },
        Msg::RestackStats(stats) => Reaction::Record(stats),
        Msg::Shutdown => Reaction::Stop,
    }
}

/// Turn one message into what the engine does about it. Producers are
/// clockless; the time an event carries is stamped here.
pub fn react<W>(msg: Msg, at: Ts) -> (r: Reaction<W>)
    ensures
        r == reaction_to::<W>(msg, at),
{
    match msg {
        Msg::Hotkey(action, _) => Reaction::Pump {
            fresh: false,
            event: Event::Hotkey { at, action },
        },
        Msg::Rescan(trigger) => Reaction::Look(trigger),
        Msg::Rescue => Reaction::Pump { fresh: false, event: Event::RescueEngaged { at } },
        Msg::Engage => Reaction::Pump { fresh: false, event: Event::Engaged { at } },
        Msg::EngageFresh => Reaction::Pump { fresh: true, event: Event::Engaged { at } },
        Msg::SaveState => Reaction::Save,
        Msg::Gesture(gesture) => Reaction::Pump {
            fresh: false,
            event: Event::Gesture { at, gesture },
        },
        Msg::RestackStats(stats) => Reaction::Record(stats),
        Msg::Shutdown => Reaction::Stop,
    }
}

// --- the cascade ------------------------------------------------------------------

/// One external event may set off this many steps in all before it counts as
/// running away.
pub const MAX_CASCADE: usize = 64;

/// How an effect is carried out.
#[derive(Debug)]
pub enum Todo {
    /// Observe the world again. Looking is never a mutation, so this is done
    /// even when nothing else is.
    Look(RescanTrigger),
    /// Hand it to the executor.
    Execute,
}

/// How an effect is carried out.
pub fn carry_out(effect: &Effect) -> (r: Todo)
    ensures
        match *effect {
            Effect::RequestRescan { reason } => r matches Todo::Look(trigger) && trigger@
                == reason@,
            _ => r is Execute,
        },
{
    match effect {
        Effect::RequestRescan { reason } => Todo::Look(reason.clone()),
        _ => Todo::Execute,
    }
}

/// The events one external event has led to and that are still to be processed,
/// oldest first.
pub struct Cascade<W> {
    queue: VecDeque<Event<W>>,
    steps: usize,
}

impl<W> Cascade<W> {
    /// The events still to be processed, in order.
    pub closed spec fn pending(&self) -> Seq<Event<W>> {
        self.queue@
    }

    /// How many events have been processed.
    pub closed spec fn steps(&self) -> nat {
        self.steps as nat
    }

    /// No more steps have been taken than a cascade may take.
    pub closed spec fn wf(&self) -> bool {
        self.steps <= MAX_CASCADE
    }

    pub fn new(event: Event<W>) -> (r: Self)
        ensures
            r.wf(),
            r.pending() == seq![event],
            r.steps() == 0,
    {
        let mut queue = VecDeque::new();
        queue.push_back(event);
        assert(queue@ =~= seq![event]);
        Cascade { queue, steps: 0 }
    }

    /// The next event to process. A cascade that has taken all the steps it may
    /// ends, whatever is still pending.
    pub fn next_event(&mut self) -> (r: Option<Event<W>>)
        requires
            old(self).wf(),
        ensures
            final(self).wf(),
            old(self).pending().len() > 0 && old(self).steps() < MAX_CASCADE ==> r == Some(
                old(self).pending()[0],
            ) && final(self).pending() == old(self).pending().skip(1) && final(self).steps()
                == old(self).steps() + 1,
            !(old(self).pending().len() > 0 && old(self).steps() < MAX_CASCADE) ==> r is None
                && final(self).pending() == old(self).pending() && final(self).steps()
                == old(self).steps(),
    {
        if self.steps >= MAX_CASCADE {
            return None;
        }
        match self.queue.pop_front() {
            Some(event) => {
                assert(old(self).queue@.subrange(1, old(self).queue@.len() as int)
                    =~= old(self).queue@.skip(1));
                self.steps = self.steps + 1;
                Some(event)
            },
            None => None,
        }
    }

    /// How many events are still pending.
    pub fn left(&self) -> (r: usize)
        ensures
            r == self.pending().len(),
    {
        self.queue.len()
    }

    /// A look was taken: it is processed after everything already pending.
    pub fn observed(&mut self, at: Ts, trigger: RescanTrigger, snap: W)
        requires
            old(self).wf(),
        ensures
            final(self).wf(),
            final(self).steps() == old(self).steps(),
            final(self).pending() == old(self).pending().push(
                (Event::WorldObserved { at, trigger, snap }),
            ),
    {
        self.queue.push_back(Event::WorldObserved { at, trigger, snap });
    }

    /// An effect was executed. Its outcome is news only if there is one and the
    /// effect was issued under an operation.
    pub fn executed(&mut self, at: Ts, effect: &Effect, outcome: Option<OpOutcome>)
        requires
            old(self).wf(),
        ensures
            final(self).wf(),
            final(self).steps() == old(self).steps(),
            final(self).pending() == (match (outcome, crate::logger::op_of(*effect)) {
                (Some(outcome), Some(op)) => old(self).pending().push(
                    (Event::EffectResult { at, op, outcome }),
                ),
                _ => old(self).pending(),
            }),
            *effect is SwitchWorkspace && outcome is Some ==> final(self).pending() == old(self).pending().push(
                (Event::EffectResult { at, op: effect->SwitchWorkspace_op, outcome: outcome->Some_0 }),
            ),
            *effect is MoveWindowToWorkspace && outcome is Some ==> final(self).pending() == old(self).pending().push(
                (Event::EffectResult { at, op: effect->MoveWindowToWorkspace_op, outcome: outcome->Some_0 }),
            ),
            *effect is AssignWindowToWorkspace && outcome is Some ==> final(self).pending() == old(self).pending().push(
                (Event::EffectResult { at, op: effect->AssignWindowToWorkspace_op, outcome: outcome->Some_0 }),
            ),
            *effect is AssignWindowToMonitor && outcome is Some ==> final(self).pending() == old(self).pending().push(
                (Event::EffectResult { at, op: effect->AssignWindowToMonitor_op, outcome: outcome->Some_0 }),
            ),
            *effect is ViewMonitor && outcome is Some ==> final(self).pending() == old(self).pending().push(
                (Event::EffectResult { at, op: effect->ViewMonitor_op, outcome: outcome->Some_0 }),
            ),
            *effect is SetVirtualMonitors && outcome is Some ==> final(self).pending() == old(self).pending().push(
                (Event::EffectResult { at, op: effect->SetVirtualMonitors_op, outcome: outcome->Some_0 }),
            ),
            *effect is MergeMonitors && outcome is Some ==> final(self).pending() == old(self).pending().push(
                (Event::EffectResult { at, op: effect->MergeMonitors_op, outcome: outcome->Some_0 }),
            ),
            *effect is AddMonitor && outcome is Some ==> final(self).pending() == old(self).pending().push(
                (Event::EffectResult { at, op: effect->AddMonitor_op, outcome: outcome->Some_0 }),
            ),
            *effect is SetWindowFrame && outcome is Some ==> final(self).pending() == old(self).pending().push(
                (Event::EffectResult { at, op: effect->SetWindowFrame_op, outcome: outcome->Some_0 }),
            ),
            *effect is FocusWindow && outcome is Some ==> final(self).pending() == old(self).pending().push(
                (Event::EffectResult { at, op: effect->FocusWindow_op, outcome: outcome->Some_0 }),
            ),
            *effect is FocusDesktop && outcome is Some ==> final(self).pending() == old(self).pending().push(
                (Event::EffectResult { at, op: effect->FocusDesktop_op, outcome: outcome->Some_0 }),
            ),
    {
        if let Some(outcome) = outcome {
            if let Some(op) = effect_op(effect) {
                self.queue.push_back(Event::EffectResult { at, op, outcome });
            }
        }
    }
}

/// The events a cascade processes from `pending` on, when processing the `n`th
/// event leads to `led_to(n, event)`.
pub open spec fn processed<W>(
    led_to: spec_fn(nat, Event<W>) -> Seq<Event<W>>,
    pending: Seq<Event<W>>,
    steps: nat,
) -> Seq<Event<W>>
    decreases MAX_CASCADE - steps,
{
    if pending.len() == 0 || steps >= MAX_CASCADE {
        Seq::empty()
    } else {
        seq![pending[0]] + processed(
            led_to,
            pending.skip(1) + led_to(steps, pending[0]),
            steps + 1,
        )
    }
}

/// What the first `n` processed events led to, in order.
pub open spec fn led_to_all<W>(
    led_to: spec_fn(nat, Event<W>) -> Seq<Event<W>>,
    done: Seq<Event<W>>,
    steps: nat,
) -> Seq<Event<W>>
    decreases done.len(),
{
    if done.len() == 0 {
        Seq::empty()
    } else {
        led_to(steps, done[0]) + led_to_all(led_to, done.skip(1), steps + 1)
    }
}

/// Whatever the desktop answers, the reaction to one event ends: it takes at
/// most [`MAX_CASCADE`] steps, starts with the event itself, and handles what
/// it led to first come, first served, losing nothing unless it ran the limit
/// out.
pub proof fn law_cascade_is_bounded_and_in_order<W>(
    led_to: spec_fn(nat, Event<W>) -> Seq<Event<W>>,
    event: Event<W>,
)
    ensures
        ({
            let done = processed(led_to, seq![event], 0);
            let arose = seq![event] + led_to_all(led_to, done, 0);
            &&& 1 <= done.len() <= MAX_CASCADE
            &&& done[0] == event
            &&& done.len() <= arose.len()
            &&& done == arose.take(done.len() as int)
            &&& done.len() < MAX_CASCADE ==> done == arose
        }),
{
    lemma_processed(led_to, seq![event], 0);
}

proof fn lemma_processed<W>(
    led_to: spec_fn(nat, Event<W>) -> Seq<Event<W>>,
    pending: Seq<Event<W>>,
    steps: nat,
)
    requires
        steps <= MAX_CASCADE,
    ensures
        ({
            let done = processed(led_to, pending, steps);
            let arose = pending + led_to_all(led_to, done, steps);
            &&& done.len() <= MAX_CASCADE - steps
            &&& done.len() <= arose.len()
            &&& done == arose.take(done.len() as int)
            &&& done.len() < MAX_CASCADE - steps ==> done == arose
            &&& pending.len() > 0 && steps < MAX_CASCADE ==> done.len() > 0
        }),
    decreases MAX_CASCADE - steps,
{
    let done = processed(led_to, pending, steps);
    let arose = pending + led_to_all(led_to, done, steps);
    if pending.len() == 0 || steps >= MAX_CASCADE {
        assert(done =~= arose.take(0));
        if pending.len() == 0 {
            assert(done =~= arose);
        }
    } else {
        let rest = pending.skip(1) + led_to(steps, pending[0]);
        let later = processed(led_to, rest, steps + 1);
        lemma_processed(led_to, rest, steps + 1);
        assert(done.skip(1) =~= later);
        assert(done[0] == pending[0]);
        let later_arose = rest + led_to_all(led_to, later, steps + 1);
        assert(arose =~= seq![pending[0]] + later_arose);
        assert(done =~= arose.take(done.len() as int)) by {
            assert(later =~= later_arose.take(later.len() as int));
            assert forall|i: int| 0 <= i < done.len() implies done[i] == arose[i] by {
                if i > 0 {
                    assert(done[i] == later[i - 1]);
                    assert(later[i - 1] == later_arose.take(later.len() as int)[i - 1]);
                }
            }
        }
    }
}

// --- the engine ---------------------------------------------------------------------

/// What the core decides about one event.
#[derive(Debug)]
pub struct Step<S, N> {
    pub state: S,
    pub effects: Vec<Effect>,
    pub notes: Vec<N>,
}

/// One call across a port, with what it answered.
pub enum Call<S, W, N> {
    /// The world was observed.
    Look(W),
    /// The clock was read.
    Now(Ts),
    /// The effector was asked to do something.
    Do(Deed),
    /// The journal was given something to keep.
    Keep(Entry<S, W, N>),
    /// The journal was asked for its next number.
    Count(u64),
}

/// Everything an engine reaches the world through.
pub struct Ports<X, O, C, J> {
    pub world: X,
    pub effector: O,
    pub clock: C,
    pub journal: J,
}

/// A call may turn `before` into `after`.
pub open spec fn called<
    S,
    W,
    N,
    X: WorldSource<W>,
    O: Effector,
    C: Clock,
    J: Journal<S, W, N>,
>(before: Ports<X, O, C, J>, call: Call<S, W, N>, after: Ports<X, O, C, J>) -> bool {
    match call {
        Call::Look(snap) => before.world.shows(snap, after.world) && after == (Ports {
            world: after.world,
            ..before
        }),
        Call::Now(at) => before.clock.may_read(at) && after == before,
        Call::Do(deed) => before.effector.does(deed, after.effector) && after == (Ports {
            effector: after.effector,
            ..before
        }),
        Call::Keep(entry) => {
            &&& before.journal.keeps(entry, after.journal)
            &&& after.journal.number() == (if entry is Step {
                following(before.journal.number())
            } else {
                before.journal.number()
            })
            &&& after == (Ports { journal: after.journal, ..before })
        },
        Call::Count(seq) => seq == before.journal.number() && after == before,
    }
}

/// The calls in order may turn `before` into `after`.
pub open spec fn reached<
    S,
    W,
    N,
    X: WorldSource<W>,
    O: Effector,
    C: Clock,
    J: Journal<S, W, N>,
>(before: Ports<X, O, C, J>, calls: Seq<Call<S, W, N>>, after: Ports<X, O, C, J>) -> bool
    decreases calls.len(),
{
    if calls.len() == 0 {
        after == before
    } else {
        exists|mid: Ports<X, O, C, J>|
            reached(before, calls.drop_last(), mid) && #[trigger] called(mid, calls.last(), after)
    }
}

/// What the journal was given of steps: each event with the effects decided on.
pub open spec fn logged<S, W, N>(calls: Seq<Call<S, W, N>>) -> Seq<(Event<W>, Seq<EffectView>)>
    decreases calls.len(),
{
    if calls.len() == 0 {
        Seq::empty()
    } else {
        let before = logged(calls.drop_last());
        match calls.last() {
            Call::Keep(Entry::Step { event, step }) => before.push(
                (event, effect_views(step.effects@)),
            ),
            _ => before,
        }
    }
}

proof fn lemma_logged_append<S, W, N>(a: Seq<Call<S, W, N>>, b: Seq<Call<S, W, N>>)
    ensures
        logged(a + b) == logged(a) + logged(b),
    decreases b.len(),
{
    if b.len() == 0 {
        assert(a + b =~= a);
        assert(logged(a) + logged(b) =~= logged(a));
    } else {
        assert((a + b).drop_last() =~= a + b.drop_last());
        lemma_logged_append(a, b.drop_last());
        assert(logged(a + b) =~= logged(a) + logged(b));
    }
}

/// The number of the step logged `i`th, counted from zero, by a journal whose
/// next number is `first`.
pub open spec fn numbered_from(first: u64, i: nat) -> u64
    decreases i,
{
    if i == 0 {
        first
    } else {
        following(numbered_from(first, (i - 1) as nat))
    }
}

/// Numbers count up one by one, for as long as they can be counted.
pub proof fn law_numbers_count_up(first: u64, i: nat)
    requires
        first + i <= u64::MAX,
    ensures
        numbered_from(first, i) == first + i,
    decreases i,
{
    if i > 0 {
        law_numbers_count_up(first, (i - 1) as nat);
    }
}

/// A journal's next number is one further for every step it was given, whatever
/// else it was given.
pub proof fn law_journal_numbers_every_step<
    S,
    W,
    N,
    X: WorldSource<W>,
    O: Effector,
    C: Clock,
    J: Journal<S, W, N>,
>(before: Ports<X, O, C, J>, calls: Seq<Call<S, W, N>>, after: Ports<X, O, C, J>)
    requires
        reached::<S, W, N, X, O, C, J>(before, calls, after),
    ensures
        after.journal.number() == numbered_from(before.journal.number(), logged(calls).len()),
    decreases calls.len(),
{
    if calls.len() > 0 {
        let mid = choose|mid: Ports<X, O, C, J>|
            reached::<S, W, N, X, O, C, J>(before, calls.drop_last(), mid) && #[trigger] called::<
                S,
                W,
                N,
                X,
                O,
                C,
                J,
            >(mid, calls.last(), after);
        law_journal_numbers_every_step::<S, W, N, X, O, C, J>(before, calls.drop_last(), mid);
    }
}

/// A number the journal was asked for is that of the next step it was given.
proof fn lemma_counted<
    S,
    W,
    N,
    X: WorldSource<W>,
    O: Effector,
    C: Clock,
    J: Journal<S, W, N>,
>(before: Ports<X, O, C, J>, calls: Seq<Call<S, W, N>>, after: Ports<X, O, C, J>, k: int)
    requires
        reached::<S, W, N, X, O, C, J>(before, calls, after),
        0 <= k < calls.len(),
        calls[k] is Count,
    ensures
        calls[k]->Count_0 == numbered_from(before.journal.number(), logged(calls.take(k)).len()),
    decreases calls.len(),
{
    let mid = choose|mid: Ports<X, O, C, J>|
        reached::<S, W, N, X, O, C, J>(before, calls.drop_last(), mid) && #[trigger] called::<
            S,
            W,
            N,
            X,
            O,
            C,
            J,
        >(mid, calls.last(), after);
    let init = calls.drop_last();
    if k < init.len() {
        lemma_counted::<S, W, N, X, O, C, J>(before, init, mid, k);
        assert(init.take(k) =~= calls.take(k));
    } else {
        law_journal_numbers_every_step::<S, W, N, X, O, C, J>(before, init, mid);
        assert(calls.take(k) =~= init);
    }
}

/// Carrying out an effect makes exactly these calls and leads to these events. A
/// look takes one observation, which is to be processed. Anything else is handed
/// to the effector as it is, once; what that answers is to be processed if it
/// answers anything and the effect was issued under an operation.
pub open spec fn carried<S, W, N>(
    effect: Effect,
    calls: Seq<Call<S, W, N>>,
    led: Seq<Event<W>>,
) -> bool {
    match effect {
        Effect::RequestRescan { reason } => {
            &&& calls.len() == 2
            &&& calls[0] matches Call::Look(seen)
            &&& calls[1] matches Call::Now(taken)
            &&& led.len() == 1
            &&& led[0] matches Event::WorldObserved { at, trigger, snap }
            &&& at == taken
            &&& snap == seen
            &&& trigger@ == reason@
        },
        _ => {
            &&& calls.len() >= 1
            &&& calls[0] matches Call::Do(Deed::Execute { effect: done, outcome })
            &&& done == effect
            &&& match (outcome, crate::logger::op_of(effect)) {
                (Some(outcome), Some(op)) => {
                    &&& calls.len() == 2
                    &&& calls[1] matches Call::Now(at)
                    &&& led == seq![Event::<W>::EffectResult { at, op, outcome }]
                },
                _ => calls.len() == 1 && led.len() == 0,
            }
        },
    }
}

/// Carrying out the effects one after the other makes exactly these calls and
/// leads to these events.
pub open spec fn carried_all<S, W, N>(
    effects: Seq<Effect>,
    calls: Seq<Call<S, W, N>>,
    led: Seq<Event<W>>,
) -> bool
    decreases effects.len(),
{
    if effects.len() == 0 {
        calls.len() == 0 && led.len() == 0
    } else {
        exists|j: int, k: int|
            0 <= j <= calls.len() && 0 <= k <= led.len() && carried_all(
                effects.drop_last(),
                calls.take(j),
                led.take(k),
            ) && carried(effects.last(), #[trigger] calls.skip(j), #[trigger] led.skip(k))
    }
}

/// What the effector was asked to execute.
pub open spec fn executed<S, W, N>(calls: Seq<Call<S, W, N>>) -> Seq<Effect>
    decreases calls.len(),
{
    if calls.len() == 0 {
        Seq::empty()
    } else {
        let before = executed(calls.drop_last());
        match calls.last() {
            Call::Do(Deed::Execute { effect, .. }) => before.push(effect),
            _ => before,
        }
    }
}

/// The effects that are not looks.
pub open spec fn deeds(effects: Seq<Effect>) -> Seq<Effect>
    decreases effects.len(),
{
    if effects.len() == 0 {
        Seq::empty()
    } else if effects.last() is RequestRescan {
        deeds(effects.drop_last())
    } else {
        deeds(effects.drop_last()).push(effects.last())
    }
}

proof fn lemma_executed_append<S, W, N>(a: Seq<Call<S, W, N>>, b: Seq<Call<S, W, N>>)
    ensures
        executed(a + b) == executed(a) + executed(b),
    decreases b.len(),
{
    if b.len() == 0 {
        assert(a + b =~= a);
        assert(executed(a) + executed(b) =~= executed(a));
    } else {
        assert((a + b).drop_last() =~= a + b.drop_last());
        lemma_executed_append(a, b.drop_last());
        assert(executed(a + b) =~= executed(a) + executed(b));
    }
}

/// The effects decided on are executed, each once and in order, and nothing else
/// is; only looks are not, which are taken instead. Nothing is logged on the way.
pub proof fn law_effects_are_executed_in_order<S, W, N>(
    effects: Seq<Effect>,
    calls: Seq<Call<S, W, N>>,
    led: Seq<Event<W>>,
)
    requires
        carried_all(effects, calls, led),
    ensures
        executed(calls) == deeds(effects),
        logged(calls) == Seq::<(Event<W>, Seq<EffectView>)>::empty(),
    decreases effects.len(),
{
    if effects.len() > 0 {
        let (j, k) = choose|j: int, k: int|
            0 <= j <= calls.len() && 0 <= k <= led.len() && carried_all(
                effects.drop_last(),
                calls.take(j),
                led.take(k),
            ) && carried(effects.last(), #[trigger] calls.skip(j), #[trigger] led.skip(k));
        law_effects_are_executed_in_order(effects.drop_last(), calls.take(j), led.take(k));
        let tail = calls.skip(j);
        assert(calls =~= calls.take(j) + tail);
        lemma_executed_append(calls.take(j), tail);
        lemma_logged_append(calls.take(j), tail);
        reveal_with_fuel(executed, 3);
        reveal_with_fuel(logged, 3);
        if tail.len() == 2 {
            assert(tail.drop_last().last() == tail[0]);
        } else {
            assert(tail.last() == tail[0]);
        }
        assert(executed(calls) =~= deeds(effects));
        assert(logged(calls) =~= Seq::empty());
    }
}

/// Where an engine stands: the state of the core, and every call made so far.
#[verifier::ext_equal]
pub struct Standing<S, W, N> {
    pub state: S,
    pub trace: Seq<Call<S, W, N>>,
}

impl<S, W, N> Standing<S, W, N> {
    /// One call further.
    pub open spec fn with(self, call: Call<S, W, N>) -> Standing<S, W, N> {
        Standing { trace: self.trace.push(call), ..self }
    }

    /// These calls further.
    pub open spec fn plus(self, calls: Seq<Call<S, W, N>>) -> Standing<S, W, N> {
        Standing { trace: self.trace + calls, ..self }
    }

    /// The core decided on an event, and that was logged: the step itself, and
    /// beside it how an operation went, if that is what the event says.
    pub open spec fn decided(self, event: Event<W>, step: Step<S, N>) -> Standing<S, W, N> {
        let kept = Standing {
            state: step.state,
            trace: self.trace.push(Call::Keep(Entry::Step { event, step })),
        };
        match event {
            Event::EffectResult { at, op, outcome } => kept.with(
                Call::Keep(Entry::OpResult { op, outcome, wall_ms: at.wall_ms }),
            ),
            _ => kept,
        }
    }
}

/// From `start`, with these events pending and so many steps taken, reacting may
/// end in `end`: each event is put to `update` in turn and logged, the effects
/// decided on are carried out, and what those lead to goes to the back of the
/// queue. Running the limit out is logged, with how many events were dropped.
pub open spec fn reacts<S, W, N, U: Fn(&S, &Event<W>) -> Step<S, N>>(
    update: U,
    start: Standing<S, W, N>,
    pending: Seq<Event<W>>,
    steps: nat,
    end: Standing<S, W, N>,
) -> bool
    decreases MAX_CASCADE - steps,
{
    if pending.len() == 0 {
        end == start
    } else if steps >= MAX_CASCADE {
        end == start.with(Call::Keep(Entry::Capped { dropped: pending.len() as usize }))
    } else {
        exists|step: Step<S, N>, calls: Seq<Call<S, W, N>>, led: Seq<Event<W>>|
            #[trigger] update.ensures((&start.state, &pending[0]), step) && #[trigger] carried_all(
                step.effects@,
                calls,
                led,
            ) && reacts::<S, W, N, U>(
                update,
                start.decided(pending[0], step).plus(calls),
                pending.skip(1) + led,
                steps + 1,
                end,
            )
    }
}

proof fn lemma_decided_logs<S, W, N>(
    start: Standing<S, W, N>,
    event: Event<W>,
    step: Step<S, N>,
    calls: Seq<Call<S, W, N>>,
    led: Seq<Event<W>>,
)
    requires
        carried_all(step.effects@, calls, led),
    ensures
        logged(start.decided(event, step).plus(calls).trace) == logged(start.trace).push(
            (event, effect_views(step.effects@)),
        ),
        start.trace.is_prefix_of(start.decided(event, step).plus(calls).trace),
{
    let kept = start.trace.push(Call::Keep(Entry::Step { event, step }));
    assert(kept.drop_last() =~= start.trace);
    assert(logged(kept) == logged(start.trace).push((event, effect_views(step.effects@))));
    let decided = start.decided(event, step);
    if let Event::EffectResult { at, op, outcome } = event {
        assert(decided.trace.drop_last() =~= kept);
        assert(decided.trace.last() == Call::<S, W, N>::Keep(
            Entry::OpResult { op, outcome, wall_ms: at.wall_ms },
        ));
    }
    assert(logged(decided.trace) == logged(kept));
    law_effects_are_executed_in_order(step.effects@, calls, led);
    lemma_logged_append(decided.trace, calls);
    assert(logged(decided.trace) + logged(calls) =~= logged(decided.trace));
    let all = decided.plus(calls).trace;
    assert(all.subrange(0, start.trace.len() as int) =~= start.trace);
}

proof fn lemma_log_grows<S, W, N, U: Fn(&S, &Event<W>) -> Step<S, N>>(
    update: U,
    start: Standing<S, W, N>,
    pending: Seq<Event<W>>,
    steps: nat,
    end: Standing<S, W, N>,
)
    requires
        reacts::<S, W, N, U>(update, start, pending, steps, end),
        steps <= MAX_CASCADE,
    ensures
        logged(start.trace).len() <= logged(end.trace).len() <= logged(start.trace).len()
            + MAX_CASCADE - steps,
        logged(start.trace).is_prefix_of(logged(end.trace)),
        start.trace.is_prefix_of(end.trace),
        pending.len() > 0 && steps < MAX_CASCADE ==> logged(start.trace).len() < logged(
            end.trace,
        ).len() && logged(end.trace)[logged(start.trace).len() as int].0 == pending[0],
    decreases MAX_CASCADE - steps,
{
    if pending.len() > 0 && steps < MAX_CASCADE {
        let (step, calls, led) = choose|
            step: Step<S, N>,
            calls: Seq<Call<S, W, N>>,
            led: Seq<Event<W>>,
        |
            #[trigger] update.ensures((&start.state, &pending[0]), step) && #[trigger] carried_all(
                step.effects@,
                calls,
                led,
            ) && reacts::<S, W, N, U>(
                update,
                start.decided(pending[0], step).plus(calls),
                pending.skip(1) + led,
                steps + 1,
                end,
            );
        let next = start.decided(pending[0], step).plus(calls);
        lemma_decided_logs(start, pending[0], step, calls, led);
        lemma_log_grows::<S, W, N, U>(update, next, pending.skip(1) + led, steps + 1, end);
        let n = logged(start.trace).len() as int;
        assert(logged(end.trace)[n] == logged(next.trace)[n]);
    } else if pending.len() > 0 {
        assert(end.trace.drop_last() =~= start.trace);
    }
}

/// The log is only ever added to, and so are the calls made. Reacting to an
/// event logs the event before anything it leads to, and no more steps than a
/// cascade may take.
pub proof fn law_event_is_logged_first<S, W, N, U: Fn(&S, &Event<W>) -> Step<S, N>>(
    update: U,
    start: Standing<S, W, N>,
    event: Event<W>,
    end: Standing<S, W, N>,
)
    requires
        reacts::<S, W, N, U>(update, start, seq![event], 0, end),
    ensures
        logged(start.trace).len() < logged(end.trace).len() <= logged(start.trace).len()
            + MAX_CASCADE,
        logged(start.trace).is_prefix_of(logged(end.trace)),
        logged(end.trace)[logged(start.trace).len() as int].0 == event,
        start.trace.is_prefix_of(end.trace),
{
    lemma_log_grows::<S, W, N, U>(update, start, seq![event], 0, end);
}

/// The serial loop: the core's state and everything it reaches the world
/// through. `update` is the core.
pub struct Engine<S, W, N, U, X, O, C, J> {
    pub state: S,
    pub update: U,
    pub world: X,
    pub effector: O,
    pub clock: C,
    pub journal: J,
    /// The state it began in.
    pub origin: Ghost<S>,
    /// The ports as it was given them.
    pub opened: Ghost<Ports<X, O, C, J>>,
    /// Every call it has made across them.
    pub trace: Ghost<Seq<Call<S, W, N>>>,
}

/// Whatever `update` returns is what `core` says.
pub open spec fn decides<S, W, N, U: Fn(&S, &Event<W>) -> Step<S, N>>(
    update: U,
    core: spec_fn(S, Event<W>) -> (S, Seq<EffectView>),
) -> bool {
    forall|s: S, e: Event<W>, r: Step<S, N>| #[trigger]
        update.ensures((&s, &e), r) ==> (r.state, effect_views(r.effects@)) == core(s, e)
}

impl<
    S,
    W,
    N,
    U: Fn(&S, &Event<W>) -> Step<S, N>,
    X: WorldSource<W>,
    O: Effector,
    C: Clock,
    J: Journal<S, W, N>,
> Engine<S, W, N, U, X, O, C, J> {
    /// The ports as they are.
    pub open spec fn ports(&self) -> Ports<X, O, C, J> {
        Ports {
            world: self.world,
            effector: self.effector,
            clock: self.clock,
            journal: self.journal,
        }
    }

    /// The ports are what the calls made have turned them into.
    pub open spec fn accounts(&self) -> bool {
        reached::<S, W, N, X, O, C, J>(self.opened@, self.trace@, self.ports())
    }

    /// The calls made account for the ports. What the journal was given is what
    /// the core decided, and the state is where that leads: with the log and the
    /// state it began in, the state can be had again.
    pub open spec fn wf(&self) -> bool {
        &&& self.accounts()
        &&& forall|core: spec_fn(S, Event<W>) -> (S, Seq<EffectView>)|
            #![trigger decides::<S, W, N, U>(self.update, core)]
            decides::<S, W, N, U>(self.update, core) ==> faithful(
                core,
                self.origin@,
                logged(self.trace@),
            ) && ends_in(core, self.origin@, logged(self.trace@)) == self.state
    }

    /// Where the engine stands.
    pub open spec fn standing(&self) -> Standing<S, W, N> {
        Standing { state: self.state, trace: self.trace@ }
    }

    /// The same engine later on.
    pub open spec fn continues(&self, before: Self) -> bool {
        &&& self.update == before.update
        &&& self.origin@ == before.origin@
        &&& self.opened@ == before.opened@
    }

    /// The same engine, one call later.
    pub open spec fn made(&self, before: Self, call: Call<S, W, N>) -> bool {
        &&& self.continues(before)
        &&& self.standing() == before.standing().with(call)
        &&& self.accounts()
    }

    pub fn new(state: S, update: U, world: X, effector: O, clock: C, journal: J) -> (r: Self)
        ensures
            r.wf(),
            r.standing() == (Standing { state, trace: Seq::<Call<S, W, N>>::empty() }),
            r.update == update,
            r.origin@ == state,
            r.ports() == (Ports { world, effector, clock, journal }),
            r.opened@ == r.ports(),
    {
        let ghost origin = state;
        let ghost opened = Ports { world, effector, clock, journal };
        Engine {
            state,
            update,
            world,
            effector,
            clock,
            journal,
            origin: Ghost(origin),
            opened: Ghost(opened),
            trace: Ghost(Seq::empty()),
        }
    }

    pub fn state(&self) -> (r: &S)
        ensures
            *r == self.state,
    {
        &self.state
    }

    proof fn lemma_accounts(before: Self, after: Self, call: Call<S, W, N>)
        requires
            before.accounts(),
            after.opened@ == before.opened@,
            after.trace@ == before.trace@.push(call),
            called::<S, W, N, X, O, C, J>(before.ports(), call, after.ports()),
        ensures
            after.accounts(),
    {
        let calls = after.trace@;
        assert(calls.drop_last() =~= before.trace@);
        assert(reached::<S, W, N, X, O, C, J>(after.opened@, calls.drop_last(), before.ports()));
        assert(called::<S, W, N, X, O, C, J>(before.ports(), calls.last(), after.ports()));
    }

    /// Observe the world.
    fn look(&mut self) -> (r: W)
        requires
            old(self).accounts(),
        ensures
            final(self).made(*old(self), Call::Look(r)),
    {
        let ghost before = *self;
        let snap = self.world.snapshot();
        proof {
            self.trace@ = self.trace@.push(Call::Look(snap));
            Self::lemma_accounts(before, *self, Call::Look(snap));
        }
        snap
    }

    /// Read the clock.
    fn now(&mut self) -> (r: Ts)
        requires
            old(self).accounts(),
        ensures
            final(self).made(*old(self), Call::Now(r)),
    {
        let ghost before = *self;
        let at = self.clock.now();
        proof {
            self.trace@ = self.trace@.push(Call::Now(at));
            Self::lemma_accounts(before, *self, Call::Now(at));
        }
        at
    }

    /// Hand an effect to the effector.
    fn execute(&mut self, effect: &Effect) -> (r: Option<OpOutcome>)
        requires
            old(self).accounts(),
        ensures
            final(self).made(
                *old(self),
                Call::Do(Deed::Execute { effect: *effect, outcome: r }),
            ),
    {
        let ghost before = *self;
        let outcome = self.effector.execute(effect);
        proof {
            let call = Call::Do(Deed::Execute { effect: *effect, outcome });
            self.trace@ = self.trace@.push(call);
            Self::lemma_accounts(before, *self, call);
        }
        outcome
    }

    /// Have the workspaces brought up.
    fn bring_up(&mut self, use_state: bool)
        requires
            old(self).accounts(),
        ensures
            final(self).made(*old(self), Call::Do(Deed::BringUp { use_state })),
    {
        let ghost before = *self;
        self.effector.bring_up_workspaces(use_state);
        proof {
            let call = Call::Do(Deed::BringUp { use_state });
            self.trace@ = self.trace@.push(call);
            Self::lemma_accounts(before, *self, call);
        }
    }

    /// Have the workspaces saved.
    fn persist(&mut self)
        requires
            old(self).accounts(),
        ensures
            final(self).made(*old(self), Call::Do(Deed::Persist)),
    {
        let ghost before = *self;
        self.effector.persist_workspaces();
        proof {
            self.trace@ = self.trace@.push(Call::Do(Deed::Persist));
            Self::lemma_accounts(before, *self, Call::Do(Deed::Persist));
        }
    }

    /// Take a step of the core: log it, and make its state the engine's.
    fn record(&mut self, event: &Event<W>, step: Step<S, N>) -> (r: Vec<Effect>)
        requires
            old(self).accounts(),
        ensures
            final(self).continues(*old(self)),
            final(self).standing() == old(self).standing().decided(*event, step),
            final(self).accounts(),
            r == step.effects,
    {
        let ghost before = *self;
        let ghost given = step;
        self.journal.log_step(event, &step.effects, &step.notes, &step.state);
        proof {
            let call = Call::Keep(Entry::Step { event: *event, step: given });
            self.trace@ = self.trace@.push(call);
            Self::lemma_accounts(before, *self, call);
        }
        if let Event::EffectResult { op, outcome, at } = event {
            let ghost before = *self;
            self.journal.log_op_result(*op, outcome, at.wall_ms);
            proof {
                let entry = Entry::OpResult { op: *op, outcome: *outcome, wall_ms: at.wall_ms };
                let call = Call::Keep(entry);
                self.trace@ = self.trace@.push(call);
                Self::lemma_accounts(before, *self, call);
            }
        }
        let Step { state, effects, notes: _ } = step;
        self.state = state;
        effects
    }

    /// Log that a reaction ran the limit out.
    fn capped(&mut self, dropped: usize)
        requires
            old(self).accounts(),
        ensures
            final(self).made(*old(self), Call::Keep(Entry::Capped { dropped })),
    {
        let ghost before = *self;
        self.journal.log_cascade_cap(dropped);
        proof {
            let call = Call::Keep(Entry::Capped { dropped });
            self.trace@ = self.trace@.push(call);
            Self::lemma_accounts(before, *self, call);
        }
    }

    /// Log how long a burst had queued.
    fn log_burst(&mut self, batch: HotkeyBatch, wall_ms: i64)
        requires
            old(self).accounts(),
        ensures
            final(self).made(*old(self), Call::Keep(Entry::Burst { batch, wall_ms })),
    {
        let ghost before = *self;
        self.journal.log_hotkey_batch(batch, wall_ms);
        proof {
            let call = Call::Keep(Entry::Burst { batch, wall_ms });
            self.trace@ = self.trace@.push(call);
            Self::lemma_accounts(before, *self, call);
        }
    }

    /// Log what a restack cost.
    fn log_restack(&mut self, stats: RestackStats, wall_ms: i64)
        requires
            old(self).accounts(),
        ensures
            final(self).made(*old(self), Call::Keep(Entry::Restack { stats, wall_ms })),
    {
        let ghost before = *self;
        self.journal.log_restack_stats(&stats, wall_ms);
        proof {
            let call = Call::Keep(Entry::Restack { stats, wall_ms });
            self.trace@ = self.trace@.push(call);
            Self::lemma_accounts(before, *self, call);
        }
    }

    /// Ask for the number the next logged step gets.
    fn next_seq(&mut self) -> (r: u64)
        requires
            old(self).accounts(),
        ensures
            final(self).made(*old(self), Call::Count(r)),
    {
        let ghost before = *self;
        let seq = self.journal.next_seq();
        proof {
            self.trace@ = self.trace@.push(Call::Count(seq));
            Self::lemma_accounts(before, *self, Call::Count(seq));
        }
        seq
    }

    /// A call that logs no step keeps the engine well formed.
    proof fn lemma_quiet(before: Self, after: Self, call: Call<S, W, N>)
        requires
            before.wf(),
            after.made(before, call),
            !(call matches Call::Keep(entry) && entry is Step),
        ensures
            after.wf(),
    {
        assert(after.trace@.drop_last() =~= before.trace@);
    }

    /// Take a fresh observation and react to it.
    pub fn observe(&mut self, trigger: RescanTrigger)
        requires
            old(self).wf(),
            forall|s: S, e: Event<W>| #[trigger] old(self).update.requires((&s, &e)),
        ensures
            final(self).wf(),
            final(self).continues(*old(self)),
            look_reacts::<S, W, N, U>(
                old(self).update,
                old(self).standing(),
                trigger,
                final(self).standing(),
            ),
    {
        let ghost start = *self;
        let snap = self.look();
        let ghost seen = *self;
        let at = self.now();
        proof {
            Self::lemma_quiet(start, seen, Call::Look(snap));
            Self::lemma_quiet(seen, *self, Call::Now(at));
        }
        let ghost event = observation(at, trigger, snap);
        self.pump(Event::WorldObserved { at, trigger, snap });
        assert(event == observation(at, trigger, snap));
    }

    /// React to one event in full, the looks and results it leads to included.
    pub fn pump(&mut self, event: Event<W>)
        requires
            old(self).wf(),
            forall|s: S, e: Event<W>| #[trigger] old(self).update.requires((&s, &e)),
        ensures
            final(self).wf(),
            final(self).continues(*old(self)),
            reacts::<S, W, N, U>(
                old(self).update,
                old(self).standing(),
                seq![event],
                0,
                final(self).standing(),
            ),
    {
        let ghost update = self.update;
        let ghost start = self.standing();
        let mut cascade: Cascade<W> = Cascade::new(event);
        loop
            invariant
                cascade.wf(),
                self.update == update,
                self.wf(),
                self.continues(*old(self)),
                update == old(self).update,
                start == old(self).standing(),
                forall|s: S, e: Event<W>| #[trigger] update.requires((&s, &e)),
                cascade.steps() <= MAX_CASCADE,
                forall|end: Standing<S, W, N>|
                    #[trigger] reacts::<S, W, N, U>(
                        update,
                        self.standing(),
                        cascade.pending(),
                        cascade.steps(),
                        end,
                    ) ==> reacts::<S, W, N, U>(update, start, seq![event], 0, end),
            ensures
                cascade.pending().len() == 0 || cascade.steps() >= MAX_CASCADE,
            decreases MAX_CASCADE - cascade.steps(),
        {
            let ghost before = *self;
            let ghost pending = cascade.pending();
            let ghost steps = cascade.steps();
            match cascade.next_event() {
                None => {
                    break;
                },
                Some(ev) => {
                    let step = (self.update)(&self.state, &ev);
                    let ghost decided = step;
                    let effects = self.record(&ev, step);
                    let ghost kept = self.standing();
                    let ghost rest = cascade.pending();
                    let ghost mut calls: Seq<Call<S, W, N>> = Seq::empty();
                    let ghost mut led: Seq<Event<W>> = Seq::empty();
                    assert(rest + led =~= rest);
                    assert(self.trace@ =~= kept.trace + calls);
                    for i in 0..effects.len()
                        invariant
                            cascade.wf(),
                            cascade.steps() == steps + 1,
                            cascade.pending() == rest + led,
                            self.continues(before),
                            self.accounts(),
                            self.standing() == kept.plus(calls),
                            carried_all(effects@.take(i as int), calls, led),
                    {
                        let ghost was = led;
                        let ghost made = calls;
                        let ghost queued = cascade.pending();
                        let ghost stood = self.standing();
                        self.carry_out(&effects[i], &mut cascade);
                        proof {
                            let n = queued.len() as int;
                            let more = cascade.pending().skip(n);
                            let new = self.trace@.skip(stood.trace.len() as int);
                            led = was + more;
                            calls = made + new;
                            assert(cascade.pending() =~= cascade.pending().take(n) + more);
                            assert(cascade.pending() =~= rest + led);
                            assert(self.trace@ =~= stood.trace + new);
                            assert(self.trace@ =~= kept.trace + calls);
                            let next = effects@.take(i + 1);
                            assert(next.last() == effects@[i as int]);
                            assert(next.drop_last() =~= effects@.take(i as int));
                            assert(led.take(was.len() as int) =~= was);
                            assert(led.skip(was.len() as int) =~= more);
                            assert(calls.take(made.len() as int) =~= made);
                            assert(calls.skip(made.len() as int) =~= new);
                            assert(carried_all(
                                next.drop_last(),
                                calls.take(made.len() as int),
                                led.take(was.len() as int),
                            ));
                        }
                    }
                    assert(effects@.take(effects@.len() as int) =~= effects@);
                    proof {
                        lemma_decided_logs(before.standing(), ev, decided, calls, led);
                        let was = logged(before.trace@);
                        let now = logged(self.trace@);
                        assert(now.drop_last() =~= was);
                    }
                    assert forall|end: Standing<S, W, N>|
                        #[trigger] reacts::<S, W, N, U>(
                            update,
                            self.standing(),
                            cascade.pending(),
                            cascade.steps(),
                            end,
                        ) implies reacts::<S, W, N, U>(update, start, seq![event], 0, end) by {
                        assert(rest == pending.skip(1));
                        assert(update.ensures((&before.state, &pending[0]), decided));
                        assert(carried_all(decided.effects@, calls, led));
                        assert(reacts::<S, W, N, U>(
                            update,
                            before.standing().decided(pending[0], decided).plus(calls),
                            pending.skip(1) + led,
                            steps + 1,
                            end,
                        ));
                        assert(reacts::<S, W, N, U>(
                            update,
                            before.standing(),
                            pending,
                            steps,
                            end,
                        ));
                    }
                },
            }
        }
        let ghost ended = *self;
        let dropped: usize = cascade.left();
        if dropped > 0 {
            self.capped(dropped);
            proof {
                Self::lemma_quiet(ended, *self, Call::Keep(Entry::Capped { dropped }));
            }
        }
        assert(reacts::<S, W, N, U>(
            update,
            ended.standing(),
            cascade.pending(),
            cascade.steps(),
            self.standing(),
        ));
    }

    /// Carry one effect out. A look is taken here and now; anything else goes to
    /// the executor. What comes of it joins the queue.
    fn carry_out(&mut self, effect: &Effect, cascade: &mut Cascade<W>)
        requires
            old(self).accounts(),
            old(cascade).wf(),
        ensures
            final(self).continues(*old(self)),
            final(self).accounts(),
            final(self).state == old(self).state,
            old(self).trace@.len() <= final(self).trace@.len(),
            final(self).trace@.take(old(self).trace@.len() as int) == old(self).trace@,
            final(cascade).wf(),
            final(cascade).steps() == old(cascade).steps(),
            old(cascade).pending().len() <= final(cascade).pending().len(),
            final(cascade).pending().take(old(cascade).pending().len() as int)
                == old(cascade).pending(),
            carried(
                *effect,
                final(self).trace@.skip(old(self).trace@.len() as int),
                final(cascade).pending().skip(old(cascade).pending().len() as int),
            ),
    {
        let ghost queued = cascade.pending();
        let ghost made = self.trace@;
        match carry_out(effect) {
            Todo::Look(trigger) => {
                let snap = self.look();
                let at = self.now();
                cascade.observed(at, trigger, snap);
            },
            Todo::Execute => {
                let outcome = self.execute(effect);
                if outcome.is_some() && effect_op(effect).is_some() {
                    let at = self.now();
                    cascade.executed(at, effect, outcome);
                }
            },
        }
        proof {
            let calls = self.trace@.skip(made.len() as int);
            let led = cascade.pending().skip(queued.len() as int);
            assert(self.trace@.take(made.len() as int) =~= made);
            assert(cascade.pending().take(queued.len() as int) =~= queued);
            if let Call::Do(Deed::Execute { outcome: Some(outcome), .. }) = calls[0] {
                if let Some(op) = crate::logger::op_of(*effect) {
                    if let Call::Now(at) = calls[1] {
                        assert(led =~= seq![Event::<W>::EffectResult { at, op, outcome }]);
                    }
                }
            }
        }
    }

    /// Do what a batch was planned to, in order. `whereabouts` tells the
    /// workspace shown and how many there are. `false` says that the run is to
    /// be closed.
    pub fn run_batch<G>(&mut self, batch: Batch, whereabouts: &G) -> (r: bool) where
        G: Fn(&S) -> (Option<WorkspaceId>, u8),

        requires
            old(self).wf(),
            forall|s: S, e: Event<W>| #[trigger] old(self).update.requires((&s, &e)),
            forall|s: S| #[trigger] whereabouts.requires((&s,)),
            bursts_hold_presses(batch.items@),
        ensures
            r == !batch.shutdown,
            final(self).wf(),
            final(self).continues(*old(self)),
            items_react::<S, W, N, U, G>(
                old(self).update,
                *whereabouts,
                old(self).standing(),
                item_views(batch.items@),
                final(self).standing(),
            ),
    {
        let ghost update = self.update;
        let ghost start = self.standing();
        let Batch { items, shutdown } = batch;
        let ghost all_items = items@;
        for item in it: items
            invariant
                it.seq() == all_items,
                self.update == update,
                self.wf(),
                self.continues(*old(self)),
                forall|s: S, e: Event<W>| #[trigger] update.requires((&s, &e)),
                forall|s: S| #[trigger] whereabouts.requires((&s,)),
                bursts_hold_presses(all_items),
                items_react::<S, W, N, U, G>(
                    update,
                    *whereabouts,
                    start,
                    item_views(all_items.take(it.index())),
                    self.standing(),
                ),
        {
            let ghost k = it.index();
            let ghost before = self.standing();
            let ghost given = item;
            let ghost next = item_views(all_items.take(k + 1));
            assert(next.drop_last() =~= item_views(all_items.take(k)));
            assert(next.last() == given@);
            assert(all_items[k] == given);
            match item {
                Item::Look(trigger) => {
                    self.observe(trigger);
                },
                Item::Burst(presses) => {
                    self.burst(&presses, whereabouts);
                },
                Item::React(msg) => {
                    self.react_to(msg);
                },
            }
            assert(item_reacts::<S, W, N, U, G>(
                update,
                *whereabouts,
                before,
                given@,
                self.standing(),
            ));
            assert(items_react::<S, W, N, U, G>(
                update,
                *whereabouts,
                start,
                next,
                self.standing(),
            ));
        }
        assert(all_items.take(all_items.len() as int) =~= all_items);
        !shutdown
    }

    /// Fold a burst, pump what is left of it, and log how long it had queued.
    fn burst<G>(&mut self, presses: &Vec<(HotkeyAction, u64)>, whereabouts: &G) where
        G: Fn(&S) -> (Option<WorkspaceId>, u8),

        requires
            old(self).wf(),
            forall|s: S, e: Event<W>| #[trigger] old(self).update.requires((&s, &e)),
            forall|s: S| #[trigger] whereabouts.requires((&s,)),
            presses@.len() > 0,
        ensures
            final(self).wf(),
            final(self).continues(*old(self)),
            burst_reacts::<S, W, N, U, G>(
                old(self).update,
                *whereabouts,
                old(self).standing(),
                presses@,
                final(self).standing(),
            ),
    {
        let ghost update = self.update;
        let ghost begun = *self;
        let ghost start = self.standing();
        let spot = whereabouts(&self.state);
        let (current, count) = spot;
        let pumped = fold_burst(presses, current, count);
        let dequeued = self.now();
        let ghost timed = *self;
        let seq: u64 = self.next_seq();
        proof {
            Self::lemma_quiet(begun, timed, Call::Now(dequeued));
            Self::lemma_quiet(timed, *self, Call::Count(seq));
        }
        let ghost from = self.standing();
        let record = burst_record(presses, &pumped, seq, dequeued.mono_ns);
        for i in 0..pumped.len()
            invariant
                self.update == update,
                self.wf(),
                self.continues(*old(self)),
                forall|s: S, e: Event<W>| #[trigger] update.requires((&s, &e)),
                presses_react::<S, W, N, U>(update, from, pumped@.take(i as int), self.standing()),
        {
            assert(pumped@.take(i + 1).drop_last() =~= pumped@.take(i as int));
            let ghost before = *self;
            let at = self.now();
            proof {
                Self::lemma_quiet(before, *self, Call::Now(at));
            }
            let action = pumped[i];
            let ghost event = pressed::<W>(at, action);
            let ghost told = before.standing().with(Call::Now(at));
            assert(told == self.standing());
            self.pump(Event::Hotkey { at, action });
            assert(presses_react::<S, W, N, U>(
                update,
                from,
                pumped@.take(i + 1),
                self.standing(),
            ));
        }
        assert(pumped@.take(pumped@.len() as int) =~= pumped@);
        let ghost done = *self;
        self.log_burst(record, dequeued.wall_ms);
        proof {
            let call = Call::Keep(Entry::Burst { batch: record, wall_ms: dequeued.wall_ms });
            Self::lemma_quiet(done, *self, call);
        }
        assert(whereabouts.ensures((&start.state,), spot));
        assert(is_burst(
            presses@,
            folded(actions_of(presses@), spot.0, spot.1),
            seq,
            dequeued,
            record,
        ));
        assert(from == start.with(Call::Now(dequeued)).with(Call::Count(seq)));
    }

    /// React to one message that is not a press.
    fn react_to(&mut self, msg: Msg)
        requires
            old(self).wf(),
            forall|s: S, e: Event<W>| #[trigger] old(self).update.requires((&s, &e)),
        ensures
            final(self).wf(),
            final(self).continues(*old(self)),
            msg_reacts::<S, W, N, U>(
                old(self).update,
                old(self).standing(),
                msg,
                final(self).standing(),
            ),
    {
        let ghost begun = *self;
        let at = self.now();
        proof {
            Self::lemma_quiet(begun, *self, Call::Now(at));
        }
        let ghost timed = *self;
        let ghost given = reaction_to::<W>(msg, at);
        match react::<W>(msg, at) {
            Reaction::Look(trigger) => {
                self.observe(trigger);
            },
            Reaction::Pump { fresh, event } => {
                if let Event::Engaged { .. } = &event {
                    self.bring_up(!fresh);
                    proof {
                        let call = Call::Do(Deed::BringUp { use_state: !fresh });
                        Self::lemma_quiet(timed, *self, call);
                    }
                }
                self.pump(event);
            },
            Reaction::Save => {
                self.persist();
                proof {
                    Self::lemma_quiet(timed, *self, Call::Do(Deed::Persist));
                }
            },
            Reaction::Record(stats) => {
                self.log_restack(stats, at.wall_ms);
                proof {
                    let entry = Entry::Restack { stats, wall_ms: at.wall_ms };
                    Self::lemma_quiet(timed, *self, Call::Keep(entry));
                }
            },
            Reaction::Stop => {},
        }
        assert(given == reaction_to::<W>(msg, at));
    }
}

/// An observation taken for a reason.
pub open spec fn observation<W>(at: Ts, trigger: RescanTrigger, snap: W) -> Event<W> {
    Event::WorldObserved { at, trigger, snap }
}

/// A command, as the core is told of it.
pub open spec fn pressed<W>(at: Ts, action: HotkeyAction) -> Event<W> {
    Event::Hotkey { at, action }
}

/// Taking a look may lead from `start` to `end`: one observation, one reading of
/// the clock, and the reaction to them.
pub open spec fn look_reacts<S, W, N, U: Fn(&S, &Event<W>) -> Step<S, N>>(
    update: U,
    start: Standing<S, W, N>,
    trigger: RescanTrigger,
    end: Standing<S, W, N>,
) -> bool {
    exists|at: Ts, snap: W|
        reacts::<S, W, N, U>(
            update,
            start.with(Call::Look(snap)).with(Call::Now(at)),
            seq![#[trigger] observation(at, trigger, snap)],
            0,
            end,
        )
}

/// Giving these commands in order may lead from `start` to `end`: each is
/// stamped and reacted to.
pub open spec fn presses_react<S, W, N, U: Fn(&S, &Event<W>) -> Step<S, N>>(
    update: U,
    start: Standing<S, W, N>,
    actions: Seq<HotkeyAction>,
    end: Standing<S, W, N>,
) -> bool
    decreases actions.len(),
{
    if actions.len() == 0 {
        end == start
    } else {
        exists|mid: Standing<S, W, N>, at: Ts|
            presses_react::<S, W, N, U>(update, start, actions.drop_last(), mid)
                && #[trigger] reacts::<S, W, N, U>(
                update,
                mid.with(Call::Now(at)),
                seq![pressed::<W>(at, actions.last())],
                0,
                end,
            )
    }
}

/// The record of a burst dequeued at a time.
pub open spec fn is_burst(
    presses: Seq<(HotkeyAction, u64)>,
    pumped: Seq<HotkeyAction>,
    seq: u64,
    dequeued: Ts,
    record: HotkeyBatch,
) -> bool {
    is_burst_record(presses, pumped, seq, dequeued.mono_ns, record)
}

/// A burst may lead from `start` to `end`: it is dequeued, what it folds to where
/// it is found is given to the core, and its record is logged.
pub open spec fn burst_reacts<
    S,
    W,
    N,
    U: Fn(&S, &Event<W>) -> Step<S, N>,
    G: Fn(&S) -> (Option<WorkspaceId>, u8),
>(
    update: U,
    whereabouts: G,
    start: Standing<S, W, N>,
    presses: Seq<(HotkeyAction, u64)>,
    end: Standing<S, W, N>,
) -> bool {
    exists|
        spot: (Option<WorkspaceId>, u8),
        dequeued: Ts,
        seq: u64,
        record: HotkeyBatch,
        done: Standing<S, W, N>,
    |
        {
            &&& #[trigger] whereabouts.ensures((&start.state,), spot)
            &&& #[trigger] is_burst(
                presses,
                folded(actions_of(presses), spot.0, spot.1),
                seq,
                dequeued,
                record,
            )
            &&& presses_react::<S, W, N, U>(
                update,
                start.with(Call::Now(dequeued)).with(Call::Count(seq)),
                folded(actions_of(presses), spot.0, spot.1),
                done,
            )
            &&& end == #[trigger] done.with(
                Call::Keep(Entry::Burst { batch: record, wall_ms: dequeued.wall_ms }),
            )
        }
}

/// One message may lead from `start` to `end`. Engaging brings the workspaces up
/// first, with the saved ones unless it is to start afresh; saving saves them,
/// and a restack's cost is logged.
pub open spec fn msg_reacts<S, W, N, U: Fn(&S, &Event<W>) -> Step<S, N>>(
    update: U,
    start: Standing<S, W, N>,
    msg: Msg,
    end: Standing<S, W, N>,
) -> bool {
    exists|at: Ts|
        {
            let told = start.with(Call::Now(at));
            match #[trigger] reaction_to::<W>(msg, at) {
                Reaction::Look(trigger) => look_reacts::<S, W, N, U>(update, told, trigger, end),
                Reaction::Pump { fresh, event } => reacts::<S, W, N, U>(
                    update,
                    if event is Engaged {
                        told.with(Call::Do(Deed::BringUp { use_state: !fresh }))
                    } else {
                        told
                    },
                    seq![event],
                    0,
                    end,
                ),
                Reaction::Save => end == told.with(Call::Do(Deed::Persist)),
                Reaction::Record(stats) => end == told.with(
                    Call::Keep(Entry::Restack { stats, wall_ms: at.wall_ms }),
                ),
                Reaction::Stop => end == told,
            }
        }
}

/// One item may lead from `start` to `end`.
pub open spec fn item_reacts<
    S,
    W,
    N,
    U: Fn(&S, &Event<W>) -> Step<S, N>,
    G: Fn(&S) -> (Option<WorkspaceId>, u8),
>(
    update: U,
    whereabouts: G,
    start: Standing<S, W, N>,
    item: ItemView,
    end: Standing<S, W, N>,
) -> bool {
    match item {
        ItemView::Look(trigger) => look_reacts::<S, W, N, U>(update, start, trigger, end),
        ItemView::Burst(presses) => burst_reacts::<S, W, N, U, G>(
            update,
            whereabouts,
            start,
            presses,
            end,
        ),
        ItemView::React(msg) => msg_reacts::<S, W, N, U>(update, start, msg, end),
    }
}

/// The items in order may lead from `start` to `end`.
pub open spec fn items_react<
    S,
    W,
    N,
    U: Fn(&S, &Event<W>) -> Step<S, N>,
    G: Fn(&S) -> (Option<WorkspaceId>, u8),
>(
    update: U,
    whereabouts: G,
    start: Standing<S, W, N>,
    items: Seq<ItemView>,
    end: Standing<S, W, N>,
) -> bool
    decreases items.len(),
{
    if items.len() == 0 {
        end == start
    } else {
        exists|mid: Standing<S, W, N>|
            items_react::<S, W, N, U, G>(update, whereabouts, start, items.drop_last(), mid)
                && #[trigger] item_reacts::<S, W, N, U, G>(
                update,
                whereabouts,
                mid,
                items.last(),
                end,
            )
    }
}

proof fn lemma_presses_log<S, W, N, U: Fn(&S, &Event<W>) -> Step<S, N>>(
    update: U,
    start: Standing<S, W, N>,
    actions: Seq<HotkeyAction>,
    end: Standing<S, W, N>,
)
    requires
        presses_react::<S, W, N, U>(update, start, actions, end),
    ensures
        start.trace.is_prefix_of(end.trace),
        logged(start.trace).is_prefix_of(logged(end.trace)),
        actions.len() == 0 ==> end == start,
        actions.len() > 0 ==> {
            &&& logged(start.trace).len() < logged(end.trace).len()
            &&& logged(end.trace)[logged(start.trace).len() as int].0 matches Event::Hotkey {
                action,
                ..
            }
            &&& action == actions[0]
        },
    decreases actions.len(),
{
    if actions.len() > 0 {
        let (mid, at) = choose|mid: Standing<S, W, N>, at: Ts|
            presses_react::<S, W, N, U>(update, start, actions.drop_last(), mid)
                && #[trigger] reacts::<S, W, N, U>(
                update,
                mid.with(Call::Now(at)),
                seq![pressed::<W>(at, actions.last())],
                0,
                end,
            );
        lemma_presses_log::<S, W, N, U>(update, start, actions.drop_last(), mid);
        let told = mid.with(Call::Now(at));
        assert(told.trace.drop_last() =~= mid.trace);
        assert(logged(told.trace) == logged(mid.trace));
        let event = pressed::<W>(at, actions.last());
        law_event_is_logged_first::<S, W, N, U>(update, told, event, end);
        let n = logged(start.trace).len() as int;
        assert(end.trace.subrange(0, start.trace.len() as int) =~= start.trace) by {
            assert(told.trace =~= end.trace.subrange(0, told.trace.len() as int));
            assert(start.trace =~= mid.trace.subrange(0, start.trace.len() as int));
            assert forall|i: int| 0 <= i < start.trace.len() implies end.trace[i]
                == start.trace[i] by {
                assert(told.trace[i] == end.trace.subrange(0, told.trace.len() as int)[i]);
                assert(mid.trace.subrange(0, start.trace.len() as int)[i] == mid.trace[i]);
            }
        }
        let before = logged(start.trace);
        let between = logged(mid.trace);
        let after = logged(end.trace);
        assert(between =~= after.subrange(0, between.len() as int));
        assert(before =~= between.subrange(0, before.len() as int));
        assert forall|i: int| 0 <= i < between.len() implies after[i] == between[i] by {
            assert(after.subrange(0, between.len() as int)[i] == after[i]);
        }
        assert(after.subrange(0, n) =~= before) by {
            assert forall|i: int| 0 <= i < n implies after[i] == before[i] by {
                assert(between.subrange(0, n)[i] == between[i]);
            }
        }
        if actions.len() > 1 {
            assert(actions.drop_last()[0] == actions[0]);
            assert(after[n] == between[n]);
        } else {
            assert(mid == start);
        }
    }
}

/// The record of a burst comes last, and names the first event the burst became
/// by the number that event was logged under. It names none if the burst became
/// nothing, and then nothing was logged of it but the record.
pub proof fn law_burst_names_its_first_event<
    S,
    W,
    N,
    U: Fn(&S, &Event<W>) -> Step<S, N>,
    X: WorldSource<W>,
    O: Effector,
    C: Clock,
    J: Journal<S, W, N>,
    G: Fn(&S) -> (Option<WorkspaceId>, u8),
>(
    opened: Ports<X, O, C, J>,
    update: U,
    whereabouts: G,
    start: Standing<S, W, N>,
    presses: Seq<(HotkeyAction, u64)>,
    end: Standing<S, W, N>,
    after: Ports<X, O, C, J>,
)
    requires
        burst_reacts::<S, W, N, U, G>(update, whereabouts, start, presses, end),
        reached::<S, W, N, X, O, C, J>(opened, end.trace, after),
    ensures
        ({
            let i = logged(start.trace).len();
            &&& end.trace.len() > 0
            &&& end.trace.last() matches Call::Keep(Entry::Burst { batch, .. })
            &&& batch.first_seq is None <==> batch.pumped == 0
            &&& batch.first_seq is None ==> logged(end.trace) == logged(start.trace)
            &&& batch.first_seq matches Some(seq) ==> {
                &&& seq == numbered_from(opened.journal.number(), i)
                &&& i < logged(end.trace).len()
                &&& logged(end.trace)[i as int].0 is Hotkey
            }
        }),
{
    let (spot, dequeued, seq, record, done) = choose|
        spot: (Option<WorkspaceId>, u8),
        dequeued: Ts,
        seq: u64,
        record: HotkeyBatch,
        done: Standing<S, W, N>,
    |
        {
            &&& #[trigger] whereabouts.ensures((&start.state,), spot)
            &&& #[trigger] is_burst(
                presses,
                folded(actions_of(presses), spot.0, spot.1),
                seq,
                dequeued,
                record,
            )
            &&& presses_react::<S, W, N, U>(
                update,
                start.with(Call::Now(dequeued)).with(Call::Count(seq)),
                folded(actions_of(presses), spot.0, spot.1),
                done,
            )
            &&& end == #[trigger] done.with(
                Call::Keep(Entry::Burst { batch: record, wall_ms: dequeued.wall_ms }),
            )
        };
    let timed = start.with(Call::Now(dequeued));
    let from = timed.with(Call::Count(seq));
    let pumped = folded(actions_of(presses), spot.0, spot.1);
    assert(timed.trace.drop_last() =~= start.trace);
    assert(logged(timed.trace) == logged(start.trace));
    assert(from.trace.drop_last() =~= timed.trace);
    assert(end.trace.drop_last() =~= done.trace);
    assert(logged(from.trace) == logged(start.trace));
    assert(logged(end.trace) == logged(done.trace));
    lemma_presses_log::<S, W, N, U>(update, from, pumped, done);
    let k = start.trace.len() + 1;
    assert(from.trace =~= done.trace.subrange(0, from.trace.len() as int));
    assert(end.trace.take(k as int) =~= timed.trace) by {
        assert forall|j: int| 0 <= j < k implies end.trace[j] == timed.trace[j] by {
            assert(from.trace[j] == done.trace.subrange(0, from.trace.len() as int)[j]);
        }
    }
    assert(end.trace[k as int] == Call::<S, W, N>::Count(seq)) by {
        assert(from.trace[k as int] == done.trace.subrange(0, from.trace.len() as int)[k as int]);
    }
    lemma_counted::<S, W, N, X, O, C, J>(opened, end.trace, after, k as int);
}

/// What the engine gave its journal replays clean: read back whole and replayed
/// from the state the engine began in, it shows no divergence and leads to the
/// state the engine is in.
pub proof fn law_engine_log_replays_clean<
    S,
    W,
    N,
    U: Fn(&S, &Event<W>) -> Step<S, N>,
    X: WorldSource<W>,
    O: Effector,
    C: Clock,
    J: Journal<S, W, N>,
>(
    engine: Engine<S, W, N, U, X, O, C, J>,
    core: spec_fn(S, Event<W>) -> (S, Seq<EffectView>),
    steps: Seq<crate::replay::LoggedStep<Event<W>>>,
)
    requires
        engine.wf(),
        decides::<S, W, N, U>(engine.update, core),
        crate::replay::reads_back(logged(engine.trace@), steps),
    ensures
        crate::replay::divergence(core, engine.origin@, steps) == Seq::<
            crate::replay::MismatchView,
        >::empty(),
        crate::replay::state_after(core, engine.origin@, steps) == engine.state,
{
    crate::replay::law_faithful_run_replays_clean(
        core,
        engine.origin@,
        logged(engine.trace@),
        steps,
    );
}

/// An effect that is no look is handed to the effector as it is. What the effector
/// answers comes back to the core, as it was answered, under the very operation
/// the effect was issued under, and stamped when it was answered; an effect issued
/// under none, and one that was not answered, leads to nothing.
pub proof fn law_results_come_back_under_their_own_operation<S, W, N>(
    effect: Effect,
    calls: Seq<Call<S, W, N>>,
    led: Seq<Event<W>>,
)
    requires
        carried(effect, calls, led),
        !(effect is RequestRescan),
    ensures
        calls.len() > 0 && calls[0] is Do && calls[0]->Do_0 is Execute,
        calls[0]->Do_0->Execute_effect == effect,
        effect is SwitchWorkspace && calls[0]->Do_0->Execute_outcome is Some ==> led.len() == 1
            && led[0]->EffectResult_op == effect->SwitchWorkspace_op,
        effect is MoveWindowToWorkspace && calls[0]->Do_0->Execute_outcome is Some ==> led.len() == 1
            && led[0]->EffectResult_op == effect->MoveWindowToWorkspace_op,
        effect is AssignWindowToWorkspace && calls[0]->Do_0->Execute_outcome is Some ==> led.len() == 1
            && led[0]->EffectResult_op == effect->AssignWindowToWorkspace_op,
        effect is AssignWindowToMonitor && calls[0]->Do_0->Execute_outcome is Some ==> led.len() == 1
            && led[0]->EffectResult_op == effect->AssignWindowToMonitor_op,
        effect is ViewMonitor && calls[0]->Do_0->Execute_outcome is Some ==> led.len() == 1
            && led[0]->EffectResult_op == effect->ViewMonitor_op,
        effect is SetVirtualMonitors && calls[0]->Do_0->Execute_outcome is Some ==> led.len() == 1
            && led[0]->EffectResult_op == effect->SetVirtualMonitors_op,
        effect is MergeMonitors && calls[0]->Do_0->Execute_outcome is Some ==> led.len() == 1
            && led[0]->EffectResult_op == effect->MergeMonitors_op,
        effect is AddMonitor && calls[0]->Do_0->Execute_outcome is Some ==> led.len() == 1
            && led[0]->EffectResult_op == effect->AddMonitor_op,
        effect is SetWindowFrame && calls[0]->Do_0->Execute_outcome is Some ==> led.len() == 1
            && led[0]->EffectResult_op == effect->SetWindowFrame_op,
        effect is FocusWindow && calls[0]->Do_0->Execute_outcome is Some ==> led.len() == 1
            && led[0]->EffectResult_op == effect->FocusWindow_op,
        effect is FocusDesktop && calls[0]->Do_0->Execute_outcome is Some ==> led.len() == 1
            && led[0]->EffectResult_op == effect->FocusDesktop_op,
        led.len() <= 1,
        led.len() == 1 ==> led[0] is EffectResult && calls[0]->Do_0->Execute_outcome == Some(
            led[0]->EffectResult_outcome,
        ) && calls.len() == 2 && calls[1] == Call::<S, W, N>::Now(led[0]->EffectResult_at),
        calls[0]->Do_0->Execute_outcome is None ==> led.len() == 0,
        effect is WarpMouse || effect is RestackWindows || effect is SetIntercepting ==> led.len() == 0,
{
}

/// A look that the core asks for is one observation and no deed: what was seen
/// comes to the core for the reason it was asked for.
pub proof fn law_looks_come_back_for_their_own_reason<S, W, N>(
    reason: RescanTrigger,
    calls: Seq<Call<S, W, N>>,
    led: Seq<Event<W>>,
)
    requires
        carried(Effect::RequestRescan { reason }, calls, led),
    ensures
        led.len() == 1 && led[0] is WorldObserved,
        led[0]->WorldObserved_trigger@ == reason@,
        calls.len() == 2,
        calls[0] == Call::<S, W, N>::Look(led[0]->WorldObserved_snap),
        calls[1] == Call::<S, W, N>::Now(led[0]->WorldObserved_at),
{
}

/// Only an app's own word that it created a window announces one, of that app.
pub proof fn law_only_created_windows_are_announced(hint: RescanTrigger, app: Option<Pid>)
    ensures
        created_by(hint) == Some(app) <==> {
            &&& hint is AxHint
            &&& hint->AxHint_kind == AxHintKind::WindowCreated
            &&& hint->AxHint_pid == app
        },
{
}

/// Every look is taken for one of the hints, the first of its app; and where no
/// window was announced there is one look, for the first hint.
pub proof fn law_looks_are_taken_for_the_hints(hints: Seq<RescanTrigger>, k: int)
    requires
        0 <= k < merged(hints).len(),
    ensures
        exists|i: int|
            0 <= i < hints.len() && #[trigger] hints[i] == merged(hints)[k] && (created_by(hints[i])
                is Some ==> forall|j: int|
                0 <= j < i ==> created_by(#[trigger] hints[j]) != created_by(hints[i])),
        (forall|i: int| 0 <= i < hints.len() ==> created_by(#[trigger] hints[i]) is None)
            ==> merged(hints) == seq![hints[0]],
        (exists|i: int| 0 <= i < hints.len() && created_by(#[trigger] hints[i]) is Some)
            ==> created_by(merged(hints)[k]) is Some,
{
    lemma_creations(hints);
    if creations(hints).len() > 0 {
        lemma_creations_are_firsts(hints, k);
        if forall|i: int| 0 <= i < hints.len() ==> created_by(#[trigger] hints[i]) is None {
            assert(created_by(creations(hints)[0]) is Some);
            lemma_creations_are_firsts(hints, 0);
        }
    } else {
        assert(hints[0] == merged(hints)[k]);
        if exists|i: int| 0 <= i < hints.len() && created_by(#[trigger] hints[i]) is Some {
            let i = choose|i: int|
                0 <= i < hints.len() && created_by(#[trigger] hints[i]) is Some;
            assert(announced(creations(hints), created_by(hints[i])));
        }
    }
}

proof fn lemma_creations_are_firsts(hints: Seq<RescanTrigger>, k: int)
    requires
        0 <= k < creations(hints).len(),
    ensures
        exists|i: int|
            0 <= i < hints.len() && #[trigger] hints[i] == creations(hints)[k] && forall|j: int|
                0 <= j < i ==> created_by(#[trigger] hints[j]) != created_by(hints[i]),
    decreases hints.len(),
{
    let init = hints.drop_last();
    let before = creations(init);
    if k < before.len() {
        lemma_creations_are_firsts(init, k);
        let i = choose|i: int|
            0 <= i < init.len() && #[trigger] init[i] == before[k] && forall|j: int|
                0 <= j < i ==> created_by(#[trigger] init[j]) != created_by(init[i]);
        assert(hints[i] == creations(hints)[k]);
        assert forall|j: int| 0 <= j < i implies created_by(#[trigger] hints[j]) != created_by(
            hints[i],
        ) by {
            assert(hints[j] == init[j]);
        }
    } else {
        let last = hints.len() - 1;
        lemma_creations(init);
        assert(hints[last] == creations(hints)[k]);
        assert forall|j: int| 0 <= j < last implies created_by(#[trigger] hints[j]) != created_by(
            hints[last],
        ) by {
            if created_by(hints[j]) == created_by(hints[last]) {
                assert(init[j] == hints[j]);
                assert(announced(before, created_by(init[j])));
            }
        }
    }
}

/// Hints and presses with nothing else among them come down to the looks for
/// those hints, and then one burst of those presses, both in the order they came.
pub proof fn law_a_stretch_is_its_looks_and_its_burst(msgs: Seq<Msg>)
    requires
        forall|i: int| 0 <= i < msgs.len() ==> #[trigger] msgs[i] is Rescan || msgs[i] is Hotkey,
    ensures
        ({
            let hints = msgs.filter(|m: Msg| m is Rescan).map_values(|m: Msg| m->Rescan_0);
            let presses = msgs.filter(|m: Msg| m is Hotkey).map_values(
                |m: Msg| (m->Hotkey_0, m->Hotkey_1),
            );
            let items = planned(msgs).closed();
            let n = merged(hints).len() as int;
            &&& !planned(msgs).shutdown
            &&& items.len() == n + (if presses.len() > 0 {
                1int
            } else {
                0
            })
            &&& forall|i: int| 0 <= i < n ==> #[trigger] items[i] == ItemView::Look(merged(hints)[i])
            &&& presses.len() > 0 ==> items[n] == ItemView::Burst(presses)
        }),
{
    lemma_stretch(msgs);
}

proof fn lemma_stretch(msgs: Seq<Msg>)
    requires
        forall|i: int| 0 <= i < msgs.len() ==> #[trigger] msgs[i] is Rescan || msgs[i] is Hotkey,
    ensures
        planned(msgs).items == Seq::<ItemView>::empty(),
        planned(msgs).hints == msgs.filter(|m: Msg| m is Rescan).map_values(|m: Msg| m->Rescan_0),
        planned(msgs).presses == msgs.filter(|m: Msg| m is Hotkey).map_values(
            |m: Msg| (m->Hotkey_0, m->Hotkey_1),
        ),
        !planned(msgs).shutdown,
    decreases msgs.len(),
{
    reveal(Seq::filter);
    let hint = |m: Msg| m is Rescan;
    let reason = |m: Msg| m->Rescan_0;
    let press = |m: Msg| m is Hotkey;
    let command = |m: Msg| (m->Hotkey_0, m->Hotkey_1);
    if msgs.len() > 0 {
        let init = msgs.drop_last();
        let last = msgs.last();
        assert forall|i: int| 0 <= i < init.len() implies #[trigger] init[i] is Rescan || init[i]
            is Hotkey by {
            assert(init[i] == msgs[i]);
        }
        lemma_stretch(init);
        assert(msgs[msgs.len() - 1] == last);
        if last is Rescan {
            assert(msgs.filter(hint) =~= init.filter(hint).push(last));
            assert(msgs.filter(press) =~= init.filter(press));
            assert(init.filter(hint).push(last).map_values(reason) =~= init.filter(
                hint,
            ).map_values(reason).push(last->Rescan_0));
        } else {
            assert(msgs.filter(hint) =~= init.filter(hint));
            assert(msgs.filter(press) =~= init.filter(press).push(last));
            assert(init.filter(press).push(last).map_values(command) =~= init.filter(
                press,
            ).map_values(command).push((last->Hotkey_0, last->Hotkey_1)));
        }
    } else {
        assert(msgs.filter(hint).map_values(reason) =~= Seq::empty());
        assert(msgs.filter(press).map_values(command) =~= Seq::empty());
    }
}

/// What comes after a shutdown is not heard: not even a hint among it makes a
/// difference.
pub proof fn law_nothing_is_heard_after_a_shutdown(before: Seq<Msg>, after: Seq<Msg>)
    ensures
        planned(before.push(Msg::Shutdown) + after).closed() == planned(before).closed(),
        planned(before.push(Msg::Shutdown) + after).shutdown,
    decreases after.len(),
{
    let all = before.push(Msg::Shutdown) + after;
    if after.len() == 0 {
        assert(all =~= before.push(Msg::Shutdown));
        assert(all.drop_last() =~= before);
        assert(all.last() == Msg::Shutdown);
    } else {
        law_nothing_is_heard_after_a_shutdown(before, after.drop_last());
        assert(all.drop_last() =~= before.push(Msg::Shutdown) + after.drop_last());
    }
}

/// What is heard is everything up to the first shutdown, what is acted on is
/// everything heard but the hints, and an item stands for its own messages.
pub proof fn law_what_is_heard_and_acted_on(msgs: Seq<Msg>, n: int, item: ItemView)
    requires
        0 <= n <= msgs.len(),
        forall|i: int| 0 <= i < n ==> !(#[trigger] msgs[i] is Shutdown),
        n < msgs.len() ==> msgs[n] is Shutdown,
    ensures
        heard(msgs) == msgs.take(n),
        acted_on(msgs) == msgs.filter(|m: Msg| !(m is Rescan)),
        item is Look ==> item_msgs(item).len() == 0,
        item is React ==> item_msgs(item) == seq![item->React_0],
        item is Burst ==> item_msgs(item).len() == item->Burst_0.len() && forall|i: int|
            0 <= i < item->Burst_0.len() ==> #[trigger] item_msgs(item)[i] == Msg::Hotkey(
                item->Burst_0[i].0,
                item->Burst_0[i].1,
            ),
{
    lemma_heard(msgs, n);
    lemma_acted_on(msgs);
}

proof fn lemma_heard(msgs: Seq<Msg>, n: int)
    requires
        0 <= n <= msgs.len(),
        forall|i: int| 0 <= i < n ==> !(#[trigger] msgs[i] is Shutdown),
        n < msgs.len() ==> msgs[n] is Shutdown,
    ensures
        heard(msgs) == msgs.take(n),
    decreases n,
{
    if n > 0 {
        assert(!(msgs[0] is Shutdown));
        lemma_heard(msgs.skip(1), n - 1);
        assert(seq![msgs[0]] + msgs.skip(1).take(n - 1) =~= msgs.take(n));
    } else {
        assert(heard(msgs) =~= msgs.take(n));
    }
}

proof fn lemma_acted_on(msgs: Seq<Msg>)
    ensures
        acted_on(msgs) == msgs.filter(|m: Msg| !(m is Rescan)),
    decreases msgs.len(),
{
    reveal(Seq::filter);
    if msgs.len() > 0 {
        lemma_acted_on(msgs.drop_last());
    }
}

/// Where steps lead: on by one for every step right, back by one for every step
/// left.
pub open spec fn stepped(actions: Seq<HotkeyAction>, start: int, k: int) -> int {
    start + actions.take(k).filter(|a: HotkeyAction| a is WorkspaceNext).len() - actions.take(
        k,
    ).filter(|a: HotkeyAction| a is WorkspacePrev).len()
}

proof fn lemma_position(actions: Seq<HotkeyAction>, start: int, k: int)
    requires
        0 <= k <= actions.len(),
    ensures
        position(actions, start, k) == stepped(actions, start, k),
    decreases k,
{
    reveal(Seq::filter);
    let next = |a: HotkeyAction| a is WorkspaceNext;
    let prev = |a: HotkeyAction| a is WorkspacePrev;
    if k > 0 {
        lemma_position(actions, start, k - 1);
        assert(actions.take(k).drop_last() =~= actions.take(k - 1));
        assert(actions.take(k).last() == actions[k - 1]);
    } else {
        assert(actions.take(0).filter(next).len() == 0);
        assert(actions.take(0).filter(prev).len() == 0);
    }
}

/// Two steps or more at the head of a burst become one jump to where they lead,
/// or nothing if that is where they began, as long as none of them would leave
/// the workspaces there are; what follows them is kept. Otherwise, and where it is
/// not known which workspace is shown, the burst is kept as it is.
pub proof fn law_steps_become_one_jump(
    actions: Seq<HotkeyAction>,
    current: Option<WorkspaceId>,
    count: u8,
    n: int,
)
    requires
        0 <= n <= actions.len(),
        forall|i: int|
            0 <= i < n ==> #[trigger] actions[i] is WorkspacePrev || actions[i] is WorkspaceNext,
        n < actions.len() ==> !(actions[n] is WorkspacePrev) && !(actions[n] is WorkspaceNext),
    ensures
        ({
            let start = current->Some_0.0 as int;
            let inside = forall|k: int|
                0 <= k <= n ==> 1 <= #[trigger] stepped(actions, start, k) <= count;
            let end = stepped(actions, start, n);
            let result = folded(actions, current, count);
            &&& current is None || n < 2 || !inside ==> result == actions
            &&& current is Some && n >= 2 && inside && end == start ==> result == actions.skip(n)
            &&& current is Some && n >= 2 && inside && end != start ==> {
                &&& result.len() == actions.len() - n + 1
                &&& result[0] is WorkspaceSwitchTo
                &&& result[0]->WorkspaceSwitchTo_0.0 == end
                &&& result.skip(1) == actions.skip(n)
            }
        }),
{
    assert forall|i: int| 0 <= i < n implies step_of(#[trigger] actions[i]) is Some by {
        assert(actions[i] is WorkspacePrev || actions[i] is WorkspaceNext);
    }
    lemma_lead(actions, n);
    if current is Some {
        let start = current->Some_0.0 as int;
        assert forall|k: int| 0 <= k <= n implies position(actions, start, k)
            == #[trigger] stepped(actions, start, k) by {
            lemma_position(actions, start, k);
        }
        if stays_inside(actions, start, count, n) {
            assert forall|k: int| 0 <= k <= n implies 1 <= #[trigger] stepped(
                actions,
                start,
                k,
            ) <= count by {
                assert(1 <= position(actions, start, k) <= count);
            }
        }
        if forall|k: int| 0 <= k <= n ==> 1 <= #[trigger] stepped(actions, start, k) <= count {
            assert forall|k: int| 0 <= k <= n implies 1 <= #[trigger] position(
                actions,
                start,
                k,
            ) <= count by {
                assert(1 <= stepped(actions, start, k) <= count);
            }
            assert(stays_inside(actions, start, count, n));
            let end = position(actions, start, n);
            assert(1 <= end <= count);
            if n >= 2 && end != start {
                assert(folded(actions, current, count).skip(1) =~= actions.skip(n));
            }
        }
    }
}

/// The commands of a burst are those that were pressed, in order.
pub proof fn law_a_burst_holds_what_was_pressed(presses: Seq<(HotkeyAction, u64)>, i: int)
    requires
        0 <= i < presses.len(),
    ensures
        actions_of(presses).len() == presses.len(),
        actions_of(presses)[i] == presses[i].0,
{
}

/// A burst's record counts its presses and what they became, and tells how long
/// the press that had waited longest and the one that had waited least had
/// waited: no press lies outside, and both are some press.
pub proof fn law_a_burst_is_recorded_as_it_waited(
    presses: Seq<(HotkeyAction, u64)>,
    pumped: Seq<HotkeyAction>,
    next_seq: u64,
    now: u64,
    r: HotkeyBatch,
    i: int,
)
    requires
        is_burst_record(presses, pumped, next_seq, now, r),
        0 <= i < presses.len(),
    ensures
        r.presses == presses.len(),
        r.pumped == pumped.len(),
        pumped.len() > 0 ==> r.first_seq == Some(next_seq),
        pumped.len() == 0 ==> r.first_seq is None,
        presses[i].1 <= now ==> r.newest_wait <= now - presses[i].1 <= r.oldest_wait,
        presses[i].1 > now ==> r.newest_wait == 0,
        exists|j: int|
            0 <= j < presses.len() && ((#[trigger] presses[j]).1 + r.oldest_wait == now || (
            presses[j].1 >= now && r.oldest_wait == 0)),
        exists|j: int|
            0 <= j < presses.len() && ((#[trigger] presses[j]).1 + r.newest_wait == now || (
            presses[j].1 >= now && r.newest_wait == 0)),
{
    assert(waited(presses[i], now) >= 0);
    let a = choose|j: int|
        0 <= j < presses.len() && waited(#[trigger] presses[j], now) == r.oldest_wait;
    let b = choose|j: int|
        0 <= j < presses.len() && waited(#[trigger] presses[j], now) == r.newest_wait;
    assert(presses[a].1 + r.oldest_wait == now || (presses[a].1 >= now && r.oldest_wait == 0));
    assert(presses[b].1 + r.newest_wait == now || (presses[b].1 >= now && r.newest_wait == 0));
}

/// Every message is reacted to as what it is, stamped with the time it is reacted
/// to: a command and a gesture reach the core as they were given, and only
/// engaging afresh starts from a blank model.
pub proof fn law_messages_are_reacted_to_as_what_they_are<W>(msg: Msg, at: Ts)
    ensures
        ({
            let r = reaction_to::<W>(msg, at);
            &&& r is Look <==> msg is Rescan
            &&& msg is Rescan ==> r->Look_0 == msg->Rescan_0
            &&& r is Save <==> msg is SaveState
            &&& r is Stop <==> msg is Shutdown
            &&& r is Record <==> msg is RestackStats
            &&& msg is RestackStats ==> r->Record_0 == msg->RestackStats_0
            &&& r is Pump && r->fresh <==> msg is EngageFresh
            &&& r is Pump && r->event is Engaged <==> msg is Engage || msg is EngageFresh
            &&& r is Pump && r->event is Engaged ==> r->event->Engaged_at == at
            &&& r is Pump && r->event is RescueEngaged <==> msg is Rescue
            &&& msg is Rescue ==> r->event->RescueEngaged_at == at
            &&& r is Pump && r->event is Hotkey <==> msg is Hotkey
            &&& msg is Hotkey ==> r->event->Hotkey_at == at && r->event->Hotkey_action
                == msg->Hotkey_0
            &&& r is Pump && r->event is Gesture <==> msg is Gesture
            &&& msg is Gesture ==> r->event->Gesture_at == at && r->event->Gesture_gesture
                == msg->Gesture_0
        }),
{
}

/// A reaction takes sixty-four steps at most, and leaves nothing undone unless it
/// takes them all.
pub proof fn law_a_reaction_takes_at_most_sixty_four_steps<W>(
    led_to: spec_fn(nat, Event<W>) -> Seq<Event<W>>,
    event: Event<W>,
)
    ensures
        ({
            let done = processed(led_to, seq![event], 0);
            &&& 1 <= done.len() <= 64
            &&& done.len() < 64 ==> done.len() == 1 + led_to_all(led_to, done, 0).len()
        }),
{
    law_cascade_is_bounded_and_in_order(led_to, event);
}

/// A step is logged with its event and the effects decided on, in the order steps
/// are taken; no other call is. What the effector is asked to execute is told from
/// what else it is asked for.
pub proof fn law_only_steps_are_logged<S, W, N>(calls: Seq<Call<S, W, N>>, call: Call<S, W, N>)
    ensures
        call is Keep && call->Keep_0 is Step ==> logged(calls.push(call)) == logged(calls).push(
            (call->Keep_0->Step_event, effect_views(call->Keep_0->Step_step.effects@)),
        ),
        !(call is Keep && call->Keep_0 is Step) ==> logged(calls.push(call)) == logged(calls),
        call is Do && call->Do_0 is Execute ==> executed(calls.push(call)) == executed(calls).push(
            call->Do_0->Execute_effect,
        ),
        !(call is Do && call->Do_0 is Execute) ==> executed(calls.push(call)) == executed(calls),
{
    assert(calls.push(call).drop_last() =~= calls);
}

/// Every effect but the looks is a deed, in order.
pub proof fn law_all_but_looks_are_deeds(effects: Seq<Effect>)
    ensures
        deeds(effects) == effects.filter(|e: Effect| !(e is RequestRescan)),
    decreases effects.len(),
{
    reveal(Seq::filter);
    if effects.len() > 0 {
        law_all_but_looks_are_deeds(effects.drop_last());
    }
}

/// A decision is logged before anything else is done about it, and the state it
/// leads to is the one kept. How an operation went is logged beside it: under that
/// operation, as it went, and at the time it was answered.
pub proof fn law_decisions_are_kept_as_made<S, W, N>(
    start: Standing<S, W, N>,
    event: Event<W>,
    step: Step<S, N>,
)
    ensures
        ({
            let end = start.decided(event, step);
            let n = start.trace.len() as int;
            &&& end.state == step.state
            &&& end.trace.take(n) == start.trace
            &&& end.trace[n] == Call::<S, W, N>::Keep(Entry::Step { event, step })
            &&& !(event is EffectResult) ==> end.trace.len() == n + 1
            &&& event is EffectResult ==> {
                &&& end.trace.len() == n + 2
                &&& end.trace[n + 1] is Keep
                &&& end.trace[n + 1]->Keep_0 is OpResult
                &&& end.trace[n + 1]->Keep_0->OpResult_op == event->EffectResult_op
                &&& end.trace[n + 1]->Keep_0->OpResult_outcome == event->EffectResult_outcome
                &&& end.trace[n + 1]->Keep_0->OpResult_wall_ms == event->EffectResult_at.wall_ms
            }
        }),
{
    let end = start.decided(event, step);
    assert(end.trace.take(start.trace.len() as int) =~= start.trace);
}

/// The first call of a reaction logs the event it is about.
proof fn lemma_logs_first<S, W, N, U: Fn(&S, &Event<W>) -> Step<S, N>>(
    update: U,
    start: Standing<S, W, N>,
    event: Event<W>,
    end: Standing<S, W, N>,
)
    requires
        reacts::<S, W, N, U>(update, start, seq![event], 0, end),
    ensures
        start.trace.len() < end.trace.len(),
        end.trace.take(start.trace.len() as int) == start.trace,
        end.trace[start.trace.len() as int] is Keep,
        end.trace[start.trace.len() as int]->Keep_0 is Step,
        end.trace[start.trace.len() as int]->Keep_0->Step_event == event,
{
    let pending = seq![event];
    let n = start.trace.len() as int;
    let (step, calls, led) = choose|
        step: Step<S, N>,
        calls: Seq<Call<S, W, N>>,
        led: Seq<Event<W>>,
    |
        #[trigger] update.ensures((&start.state, &pending[0]), step) && #[trigger] carried_all(
            step.effects@,
            calls,
            led,
        ) && reacts::<S, W, N, U>(
            update,
            start.decided(pending[0], step).plus(calls),
            pending.skip(1) + led,
            1,
            end,
        );
    let next = start.decided(event, step).plus(calls);
    law_decisions_are_kept_as_made(start, event, step);
    lemma_log_grows::<S, W, N, U>(update, next, pending.skip(1) + led, 1, end);
    assert(next.trace =~= end.trace.subrange(0, next.trace.len() as int));
    assert(end.trace[n] == next.trace[n]);
    lemma_log_grows::<S, W, N, U>(update, start, pending, 0, end);
    assert(end.trace.take(n) =~= start.trace) by {
        assert(start.trace =~= end.trace.subrange(0, n));
    }
}

/// Engaging reads the clock, has the workspaces brought up, with the saved ones
/// unless it is to start afresh, and only then tells the core, at the time read.
pub proof fn law_engaging_brings_the_workspaces_up_first<
    S,
    W,
    N,
    U: Fn(&S, &Event<W>) -> Step<S, N>,
>(update: U, start: Standing<S, W, N>, msg: Msg, end: Standing<S, W, N>)
    requires
        msg_reacts::<S, W, N, U>(update, start, msg, end),
        msg is Engage || msg is EngageFresh,
    ensures
        ({
            let n = start.trace.len() as int;
            &&& end.trace.len() > n + 2
            &&& end.trace.take(n) == start.trace
            &&& end.trace[n] is Now
            &&& end.trace[n + 1] == Call::<S, W, N>::Do(Deed::BringUp { use_state: msg is Engage })
            &&& end.trace[n + 2] is Keep
            &&& end.trace[n + 2]->Keep_0 is Step
            &&& end.trace[n + 2]->Keep_0->Step_event == Event::<W>::Engaged {
                at: end.trace[n]->Now_0,
            }
        }),
{
    let at = choose|at: Ts|
        {
            let told = start.with(Call::Now(at));
            match #[trigger] reaction_to::<W>(msg, at) {
                Reaction::Pump { fresh, event } => reacts::<S, W, N, U>(
                    update,
                    if event is Engaged {
                        told.with(Call::Do(Deed::BringUp { use_state: !fresh }))
                    } else {
                        told
                    },
                    seq![event],
                    0,
                    end,
                ),
                _ => false,
            }
        };
    let n = start.trace.len() as int;
    let up = start.with(Call::Now(at)).with(
        Call::Do(Deed::BringUp { use_state: msg is Engage }),
    );
    lemma_logs_first::<S, W, N, U>(update, up, Event::Engaged { at }, end);
    assert(end.trace.take(n + 2)[n] == end.trace[n]);
    assert(end.trace.take(n + 2)[n + 1] == end.trace[n + 1]);
    assert(end.trace.take(n) =~= end.trace.take(n + 2).take(n));
    assert(up.trace.take(n) =~= start.trace);
}

/// A rescue and a gesture reach the core as they are: the clock is read, and what
/// follows at once is their own event, at the time read.
pub proof fn law_rescues_and_gestures_reach_the_core_at_once<
    S,
    W,
    N,
    U: Fn(&S, &Event<W>) -> Step<S, N>,
>(update: U, start: Standing<S, W, N>, msg: Msg, end: Standing<S, W, N>)
    requires
        msg_reacts::<S, W, N, U>(update, start, msg, end),
        msg is Rescue || msg is Gesture,
    ensures
        ({
            let n = start.trace.len() as int;
            &&& end.trace.len() > n + 1
            &&& end.trace.take(n) == start.trace
            &&& end.trace[n] is Now
            &&& end.trace[n + 1] is Keep
            &&& end.trace[n + 1]->Keep_0 is Step
            &&& msg is Rescue ==> end.trace[n + 1]->Keep_0->Step_event == Event::<
                W,
            >::RescueEngaged { at: end.trace[n]->Now_0 }
            &&& msg is Gesture ==> end.trace[n + 1]->Keep_0->Step_event == Event::<W>::Gesture {
                at: end.trace[n]->Now_0,
                gesture: msg->Gesture_0,
            }
        }),
{
    let at = choose|at: Ts|
        {
            let told = start.with(Call::Now(at));
            match #[trigger] reaction_to::<W>(msg, at) {
                Reaction::Pump { fresh, event } => reacts::<S, W, N, U>(
                    update,
                    if event is Engaged {
                        told.with(Call::Do(Deed::BringUp { use_state: !fresh }))
                    } else {
                        told
                    },
                    seq![event],
                    0,
                    end,
                ),
                _ => false,
            }
        };
    let n = start.trace.len() as int;
    let told = start.with(Call::Now(at));
    let event: Event<W> = if msg is Rescue {
        Event::RescueEngaged { at }
    } else {
        Event::Gesture { at, gesture: msg->Gesture_0 }
    };
    lemma_logs_first::<S, W, N, U>(update, told, event, end);
    assert(end.trace.take(n + 1)[n] == end.trace[n]);
    assert(end.trace.take(n) =~= end.trace.take(n + 1).take(n));
    assert(told.trace.take(n) =~= start.trace);
}

/// Saving asks for the workspaces to be saved and for nothing else; what a restack
/// cost is logged as it was reported, at the time it was heard of; neither
/// reaches the core.
pub proof fn law_saving_and_restacks_leave_the_core_alone<
    S,
    W,
    N,
    U: Fn(&S, &Event<W>) -> Step<S, N>,
>(update: U, start: Standing<S, W, N>, msg: Msg, end: Standing<S, W, N>)
    requires
        msg_reacts::<S, W, N, U>(update, start, msg, end),
        msg is SaveState || msg is RestackStats,
    ensures
        ({
            let n = start.trace.len() as int;
            &&& end.state == start.state
            &&& end.trace.len() == n + 2
            &&& end.trace.take(n) == start.trace
            &&& end.trace[n] is Now
            &&& msg is SaveState ==> end.trace[n + 1] == Call::<S, W, N>::Do(Deed::Persist)
            &&& msg is RestackStats ==> end.trace[n + 1] == Call::<S, W, N>::Keep(
                Entry::Restack {
                    stats: msg->RestackStats_0,
                    wall_ms: end.trace[n]->Now_0.wall_ms,
                },
            )
        }),
{
    assert(end.trace.take(start.trace.len() as int) =~= start.trace);
}

/// A look observes the world, reads the clock, and tells the core what was seen,
/// for the reason it was taken, at the time read.
pub proof fn law_a_look_is_told_as_it_was_taken<
    S,
    W,
    N,
    U: Fn(&S, &Event<W>) -> Step<S, N>,
>(update: U, start: Standing<S, W, N>, trigger: RescanTrigger, end: Standing<S, W, N>)
    requires
        look_reacts::<S, W, N, U>(update, start, trigger, end),
    ensures
        ({
            let n = start.trace.len() as int;
            &&& end.trace.len() > n + 2
            &&& end.trace.take(n) == start.trace
            &&& end.trace[n] is Look
            &&& end.trace[n + 1] is Now
            &&& end.trace[n + 2] is Keep
            &&& end.trace[n + 2]->Keep_0 is Step
            &&& end.trace[n + 2]->Keep_0->Step_event == Event::WorldObserved {
                at: end.trace[n + 1]->Now_0,
                trigger,
                snap: end.trace[n]->Look_0,
            }
        }),
{
    let (at, snap) = choose|at: Ts, snap: W|
        reacts::<S, W, N, U>(
            update,
            start.with(Call::Look(snap)).with(Call::Now(at)),
            seq![#[trigger] observation(at, trigger, snap)],
            0,
            end,
        );
    let n = start.trace.len() as int;
    let told = start.with(Call::Look(snap)).with(Call::Now(at));
    lemma_logs_first::<S, W, N, U>(update, told, observation(at, trigger, snap), end);
    assert(end.trace.take(n + 2)[n] == end.trace[n]);
    assert(end.trace.take(n + 2)[n + 1] == end.trace[n + 1]);
    assert(end.trace.take(n) =~= end.trace.take(n + 2).take(n));
    assert(told.trace.take(n) =~= start.trace);
}

/// The commands the core has been told of, in order.
pub open spec fn commands<W>(log: Seq<(Event<W>, Seq<EffectView>)>) -> Seq<HotkeyAction> {
    log.filter(|e: (Event<W>, Seq<EffectView>)| e.0 is Hotkey).map_values(
        |e: (Event<W>, Seq<EffectView>)| e.0->Hotkey_action,
    )
}

proof fn lemma_commands_push<W>(
    log: Seq<(Event<W>, Seq<EffectView>)>,
    entry: (Event<W>, Seq<EffectView>),
)
    ensures
        entry.0 is Hotkey ==> commands(log.push(entry)) == commands(log).push(
            entry.0->Hotkey_action,
        ),
        !(entry.0 is Hotkey) ==> commands(log.push(entry)) == commands(log),
{
    reveal(Seq::filter);
    let command = |e: (Event<W>, Seq<EffectView>)| e.0 is Hotkey;
    let action = |e: (Event<W>, Seq<EffectView>)| e.0->Hotkey_action;
    let more = log.push(entry);
    assert(more.drop_last() =~= log);
    if entry.0 is Hotkey {
        assert(more.filter(command) =~= log.filter(command).push(entry));
        assert(log.filter(command).push(entry).map_values(action) =~= log.filter(
            command,
        ).map_values(action).push(entry.0->Hotkey_action));
    } else {
        assert(more.filter(command) =~= log.filter(command));
    }
}

proof fn lemma_led_no_commands<S, W, N>(
    effects: Seq<Effect>,
    calls: Seq<Call<S, W, N>>,
    led: Seq<Event<W>>,
)
    requires
        carried_all(effects, calls, led),
    ensures
        forall|i: int| 0 <= i < led.len() ==> !(#[trigger] led[i] is Hotkey),
    decreases effects.len(),
{
    if effects.len() > 0 {
        let (j, k) = choose|j: int, k: int|
            0 <= j <= calls.len() && 0 <= k <= led.len() && carried_all(
                effects.drop_last(),
                calls.take(j),
                led.take(k),
            ) && carried(effects.last(), #[trigger] calls.skip(j), #[trigger] led.skip(k));
        lemma_led_no_commands(effects.drop_last(), calls.take(j), led.take(k));
        let last = effects.last();
        if let Effect::RequestRescan { reason } = last {
            law_looks_come_back_for_their_own_reason(reason, calls.skip(j), led.skip(k));
        } else {
            law_results_come_back_under_their_own_operation(last, calls.skip(j), led.skip(k));
        }
        assert forall|i: int| 0 <= i < led.len() implies !(#[trigger] led[i] is Hotkey) by {
            if i < k {
                assert(led.take(k)[i] == led[i]);
            } else {
                assert(led.skip(k)[i - k] == led[i]);
            }
        }
    }
}

proof fn lemma_reaction_commands<S, W, N, U: Fn(&S, &Event<W>) -> Step<S, N>>(
    update: U,
    start: Standing<S, W, N>,
    pending: Seq<Event<W>>,
    steps: nat,
    end: Standing<S, W, N>,
)
    requires
        reacts::<S, W, N, U>(update, start, pending, steps, end),
        steps <= MAX_CASCADE,
        steps == 0 ==> pending.len() == 1,
        forall|i: int| 0 <= i < pending.len() && steps > 0 ==> !(#[trigger] pending[i] is Hotkey),
    ensures
        steps > 0 ==> commands(logged(end.trace)) == commands(logged(start.trace)),
        steps == 0 && pending[0] is Hotkey ==> commands(logged(end.trace)) == commands(
            logged(start.trace),
        ).push(pending[0]->Hotkey_action),
        steps == 0 && !(pending[0] is Hotkey) ==> commands(logged(end.trace)) == commands(
            logged(start.trace),
        ),
    decreases MAX_CASCADE - steps,
{
    if pending.len() > 0 && steps < MAX_CASCADE {
        let (step, calls, led) = choose|
            step: Step<S, N>,
            calls: Seq<Call<S, W, N>>,
            led: Seq<Event<W>>,
        |
            #[trigger] update.ensures((&start.state, &pending[0]), step) && #[trigger] carried_all(
                step.effects@,
                calls,
                led,
            ) && reacts::<S, W, N, U>(
                update,
                start.decided(pending[0], step).plus(calls),
                pending.skip(1) + led,
                steps + 1,
                end,
            );
        let next = start.decided(pending[0], step).plus(calls);
        let left = pending.skip(1) + led;
        lemma_decided_logs(start, pending[0], step, calls, led);
        lemma_commands_push(logged(start.trace), (pending[0], effect_views(step.effects@)));
        lemma_led_no_commands(step.effects@, calls, led);
        assert forall|i: int| 0 <= i < left.len() implies !(#[trigger] left[i] is Hotkey) by {
            if i < pending.len() - 1 {
                assert(left[i] == pending[i + 1]);
            } else {
                assert(left[i] == led[i - (pending.len() - 1)]);
            }
        }
        lemma_reaction_commands::<S, W, N, U>(update, next, left, steps + 1, end);
    } else if pending.len() > 0 {
        assert(end.trace.drop_last() =~= start.trace);
    }
}

/// The core is told of exactly these commands, in this order, whatever it decides
/// about each and whatever comes of that.
pub proof fn law_the_core_is_told_every_command_in_order<
    S,
    W,
    N,
    U: Fn(&S, &Event<W>) -> Step<S, N>,
>(update: U, start: Standing<S, W, N>, actions: Seq<HotkeyAction>, end: Standing<S, W, N>)
    requires
        presses_react::<S, W, N, U>(update, start, actions, end),
    ensures
        commands(logged(end.trace)) == commands(logged(start.trace)) + actions,
    decreases actions.len(),
{
    if actions.len() > 0 {
        let (mid, at) = choose|mid: Standing<S, W, N>, at: Ts|
            presses_react::<S, W, N, U>(update, start, actions.drop_last(), mid)
                && #[trigger] reacts::<S, W, N, U>(
                update,
                mid.with(Call::Now(at)),
                seq![pressed::<W>(at, actions.last())],
                0,
                end,
            );
        law_the_core_is_told_every_command_in_order::<S, W, N, U>(
            update,
            start,
            actions.drop_last(),
            mid,
        );
        let told = mid.with(Call::Now(at));
        assert(told.trace.drop_last() =~= mid.trace);
        lemma_reaction_commands::<S, W, N, U>(
            update,
            told,
            seq![pressed::<W>(at, actions.last())],
            0,
            end,
        );
        assert(actions =~= actions.drop_last().push(actions.last()));
        assert(commands(logged(end.trace)) =~= commands(logged(start.trace)) + actions);
    } else {
        assert(commands(logged(start.trace)) + actions =~= commands(logged(start.trace)));
    }
}

/// A burst tells the core what it folds to where it finds itself, in order, and
/// then its record is logged, last of all: of as many presses as there were and as
/// many commands as the core was told of.
pub proof fn law_a_burst_tells_the_core_what_it_folds_to<
    S,
    W,
    N,
    U: Fn(&S, &Event<W>) -> Step<S, N>,
    G: Fn(&S) -> (Option<WorkspaceId>, u8),
>(
    update: U,
    whereabouts: G,
    start: Standing<S, W, N>,
    presses: Seq<(HotkeyAction, u64)>,
    end: Standing<S, W, N>,
)
    requires
        burst_reacts::<S, W, N, U, G>(update, whereabouts, start, presses, end),
    ensures
        exists|spot: (Option<WorkspaceId>, u8)| #[trigger]
            whereabouts.ensures((&start.state,), spot) && commands(logged(end.trace)) == commands(
                logged(start.trace),
            ) + folded(actions_of(presses), spot.0, spot.1),
        end.trace.last() is Keep,
        end.trace.last()->Keep_0 is Burst,
        end.trace.last()->Keep_0->Burst_batch.presses == presses.len(),
        end.trace.last()->Keep_0->Burst_batch.pumped == commands(logged(end.trace)).len()
            - commands(logged(start.trace)).len(),
{
    let (spot, dequeued, seq, record, done) = choose|
        spot: (Option<WorkspaceId>, u8),
        dequeued: Ts,
        seq: u64,
        record: HotkeyBatch,
        done: Standing<S, W, N>,
    |
        {
            &&& #[trigger] whereabouts.ensures((&start.state,), spot)
            &&& #[trigger] is_burst(
                presses,
                folded(actions_of(presses), spot.0, spot.1),
                seq,
                dequeued,
                record,
            )
            &&& presses_react::<S, W, N, U>(
                update,
                start.with(Call::Now(dequeued)).with(Call::Count(seq)),
                folded(actions_of(presses), spot.0, spot.1),
                done,
            )
            &&& end == #[trigger] done.with(
                Call::Keep(Entry::Burst { batch: record, wall_ms: dequeued.wall_ms }),
            )
        };
    let timed = start.with(Call::Now(dequeued));
    let from = timed.with(Call::Count(seq));
    assert(timed.trace.drop_last() =~= start.trace);
    assert(from.trace.drop_last() =~= timed.trace);
    assert(end.trace.drop_last() =~= done.trace);
    assert(logged(from.trace) == logged(timed.trace));
    law_the_core_is_told_every_command_in_order::<S, W, N, U>(
        update,
        from,
        folded(actions_of(presses), spot.0, spot.1),
        done,
    );
}

/// A list of items is done one part after the other: where the whole leads is
/// where the second part leads from where the first has led.
pub proof fn law_items_are_done_in_order<
    S,
    W,
    N,
    U: Fn(&S, &Event<W>) -> Step<S, N>,
    G: Fn(&S) -> (Option<WorkspaceId>, u8),
>(
    update: U,
    whereabouts: G,
    start: Standing<S, W, N>,
    a: Seq<ItemView>,
    b: Seq<ItemView>,
    end: Standing<S, W, N>,
)
    requires
        items_react::<S, W, N, U, G>(update, whereabouts, start, a + b, end),
    ensures
        exists|mid: Standing<S, W, N>|
            #[trigger] items_react::<S, W, N, U, G>(update, whereabouts, start, a, mid)
                && items_react::<S, W, N, U, G>(update, whereabouts, mid, b, end),
    decreases b.len(),
{
    if b.len() == 0 {
        assert(a + b =~= a);
        assert(items_react::<S, W, N, U, G>(update, whereabouts, start, a, end));
        assert(items_react::<S, W, N, U, G>(update, whereabouts, end, b, end));
    } else {
        let all = a + b;
        assert(all.drop_last() =~= a + b.drop_last());
        assert(all.last() == b.last());
        let last = choose|last: Standing<S, W, N>|
            items_react::<S, W, N, U, G>(update, whereabouts, start, all.drop_last(), last)
                && #[trigger] item_reacts::<S, W, N, U, G>(
                update,
                whereabouts,
                last,
                all.last(),
                end,
            );
        law_items_are_done_in_order::<S, W, N, U, G>(
            update,
            whereabouts,
            start,
            a,
            b.drop_last(),
            last,
        );
        let mid = choose|mid: Standing<S, W, N>|
            #[trigger] items_react::<S, W, N, U, G>(update, whereabouts, start, a, mid)
                && items_react::<S, W, N, U, G>(update, whereabouts, mid, b.drop_last(), last);
        assert(item_reacts::<S, W, N, U, G>(update, whereabouts, last, b.last(), end));
        assert(items_react::<S, W, N, U, G>(update, whereabouts, mid, b, end));
    }
}

/// A look is done as a look for its reason, a burst as a burst of its presses, and
/// any other message as that message; doing nothing leads nowhere.
pub proof fn law_each_item_is_done_as_what_it_is<
    S,
    W,
    N,
    U: Fn(&S, &Event<W>) -> Step<S, N>,
    G: Fn(&S) -> (Option<WorkspaceId>, u8),
>(
    update: U,
    whereabouts: G,
    start: Standing<S, W, N>,
    item: ItemView,
    end: Standing<S, W, N>,
)
    ensures
        items_react::<S, W, N, U, G>(update, whereabouts, start, Seq::empty(), end) <==> end
            == start,
        items_react::<S, W, N, U, G>(update, whereabouts, start, seq![item], end) ==> {
            &&& item is Look ==> look_reacts::<S, W, N, U>(update, start, item->Look_0, end)
            &&& item is Burst ==> burst_reacts::<S, W, N, U, G>(
                update,
                whereabouts,
                start,
                item->Burst_0,
                end,
            )
            &&& item is React ==> msg_reacts::<S, W, N, U>(update, start, item->React_0, end)
        },
{
    if items_react::<S, W, N, U, G>(update, whereabouts, start, seq![item], end) {
        let one = seq![item];
        let mid = choose|mid: Standing<S, W, N>|
            items_react::<S, W, N, U, G>(update, whereabouts, start, one.drop_last(), mid)
                && #[trigger] item_reacts::<S, W, N, U, G>(
                update,
                whereabouts,
                mid,
                one.last(),
                end,
            );
        assert(one.drop_last().len() == 0);
        assert(mid == start);
    }
}

/// An item is seen as what it is, in its place, with what it holds.
pub proof fn law_items_are_seen_as_what_they_are(items: Seq<Item>, i: int)
    requires
        0 <= i < items.len(),
    ensures
        item_views(items).len() == items.len(),
        items[i] is Look ==> item_views(items)[i] == ItemView::Look(items[i]->Look_0),
        items[i] is Burst ==> item_views(items)[i] == ItemView::Burst(items[i]->Burst_0@),
        items[i] is React ==> item_views(items)[i] == ItemView::React(items[i]->React_0),
{
}

} // verus!
