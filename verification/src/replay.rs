//! Re-run a logged run through the core and check that it still decides exactly
//! what it decided live.
//!
//! The core is deterministic and clockless, so replaying the logged events from
//! the logged state must reproduce the logged effects. A mismatch means that
//! the core's rules changed since the run, or that something that is not in the
//! log leaked into them; either way replay points at the exact event.

use crate::vocab::{effect_views, same_effects, Effect, EffectView};
use vstd::prelude::*;

verus! {

/// What a replay found.
#[derive(Debug)]
pub struct ReplayReport {
    pub run_id: i64,
    pub from_seq: u64,
    pub events_replayed: usize,
    pub mismatches: Vec<Mismatch>,
}

/// An event at which live and re-run diverged.
#[derive(Debug)]
pub struct Mismatch {
    pub seq: u64,
    pub logged: Vec<Effect>,
    pub recomputed: Vec<Effect>,
}

/// [`Mismatch`] with its effects as sequences.
pub struct MismatchView {
    pub seq: u64,
    pub logged: Seq<EffectView>,
    pub recomputed: Seq<EffectView>,
}

impl View for Mismatch {
    type V = MismatchView;

    open spec fn view(&self) -> MismatchView {
        MismatchView {
            seq: self.seq,
            logged: effect_views(self.logged@),
            recomputed: effect_views(self.recomputed@),
        }
    }
}

impl ReplayReport {
    pub fn is_clean(&self) -> (r: bool)
        ensures
            r == (self.mismatches@.len() == 0),
    {
        self.mismatches.len() == 0
    }
}

/// The views of a list of mismatches.
pub open spec fn mismatch_views(mismatches: Seq<Mismatch>) -> Seq<MismatchView> {
    mismatches.map_values(|m: Mismatch| m@)
}

// --- where to start ---------------------------------------------------------------

/// Where a replay starts.
#[derive(Clone, Copy, Debug, PartialEq, Eq, Structural)]
pub struct Resume {
    /// The checkpoint whose state to start from; `None` for a blank one.
    pub checkpoint: Option<u64>,
    /// The first event to replay.
    pub start: u64,
}

/// `best` is the latest of the checkpoints at or before `target`.
pub open spec fn is_latest(checkpoints: Seq<u64>, target: u64, best: u64) -> bool {
    &&& checkpoints.contains(best)
    &&& best <= target
    &&& forall|i: int|
        0 <= i < checkpoints.len() && #[trigger] checkpoints[i] <= target ==> checkpoints[i] <= best
}

/// Decide where to start. A checkpoint holds the state after its event, so
/// replay takes up at the event behind it. Without a target the whole run is
/// replayed, from a blank state.
pub fn load_checkpoint(checkpoints: &Vec<u64>, from_seq: Option<u64>) -> (r: Resume)
    requires
        forall|i: int| 0 <= i < checkpoints@.len() ==> #[trigger] checkpoints@[i] < u64::MAX,
    ensures
        r.checkpoint is None ==> r.start == 0,
        r.checkpoint matches Some(best) ==> r.start == best + 1,
        r.checkpoint is Some <==> (from_seq matches Some(target) && exists|i: int|
            0 <= i < checkpoints@.len() && #[trigger] checkpoints@[i] <= target),
        r.checkpoint matches Some(best) ==> is_latest(checkpoints@, from_seq->Some_0, best),
        r.checkpoint matches Some(best) ==> best <= from_seq->Some_0 && forall|i: int|
            0 <= i < checkpoints@.len() ==> !(best < #[trigger] checkpoints@[i]
                <= from_seq->Some_0),
{
    let target: u64 = match from_seq {
        Some(t) => t,
        None => {
            return Resume { checkpoint: None, start: 0 };
        },
    };
    let mut best: Option<u64> = None;
    for i in 0..checkpoints.len()
        invariant
            forall|j: int| 0 <= j < checkpoints@.len() ==> #[trigger] checkpoints@[j] < u64::MAX,
            best is None ==> forall|j: int| 0 <= j < i ==> #[trigger] checkpoints@[j] > target,
            best matches Some(b) ==> b <= target && checkpoints@.contains(b) && forall|j: int|
                0 <= j < i && #[trigger] checkpoints@[j] <= target ==> checkpoints@[j] <= b,
    {
        let seq: u64 = checkpoints[i];
        if seq <= target {
            assert(checkpoints@[i as int] == seq);
            best = match best {
                Some(b) if b >= seq => Some(b),
                _ => Some(seq),
            };
        }
    }
    match best {
        Some(b) => {
            let ghost k = choose|k: int| 0 <= k < checkpoints@.len() && checkpoints@[k] == b;
            assert(checkpoints@[k] <= target);
            Resume { checkpoint: Some(b), start: b + 1 }
        },
        None => Resume { checkpoint: None, start: 0 },
    }
}

// --- replaying ----------------------------------------------------------------------

/// One logged step, as read back. What could not be read is `None`.
#[derive(Debug)]
pub struct LoggedStep<E> {
    pub seq: u64,
    pub event: Option<E>,
    pub effects: Vec<Option<Effect>>,
}

/// The effects that could be read.
pub open spec fn readable(effects: Seq<Option<Effect>>) -> Seq<Effect>
    decreases effects.len(),
{
    if effects.len() == 0 {
        Seq::empty()
    } else {
        match effects.last() {
            Some(e) => readable(effects.drop_last()).push(e),
            None => readable(effects.drop_last()),
        }
    }
}

/// The effects that could be read, in order: a corrupt row does not void the
/// others.
pub fn logged_effects(effects: Vec<Option<Effect>>) -> (r: Vec<Effect>)
    ensures
        r@ == readable(effects@),
        r@.len() <= effects@.len(),
        (forall|i: int| 0 <= i < effects@.len() ==> #[trigger] effects@[i] is Some) ==> r@.len()
            == effects@.len() && forall|i: int|
            0 <= i < effects@.len() ==> #[trigger] effects@[i] == Some(r@[i]),
{
    let mut out: Vec<Effect> = Vec::new();
    let ghost all = effects@;
    for effect in it: effects
        invariant
            it.seq() == all,
            out@ == readable(all.take(it.index())),
            out@.len() <= it.index(),
            (forall|i: int| 0 <= i < all.len() ==> #[trigger] all[i] is Some) ==> out@.len()
                == it.index() && forall|i: int|
                0 <= i < it.index() ==> #[trigger] all[i] == Some(out@[i]),
    {
        assert(all.take(it.index() + 1).drop_last() =~= all.take(it.index()));
        if let Some(e) = effect {
            out.push(e);
        }
    }
    assert(all.take(all.len() as int) =~= all);
    out
}

/// The state after the steps, under a core that decides as `core` says. A step
/// that could not be read is passed over.
pub open spec fn state_after<S, E>(
    core: spec_fn(S, E) -> (S, Seq<EffectView>),
    state: S,
    steps: Seq<LoggedStep<E>>,
) -> S
    decreases steps.len(),
{
    if steps.len() == 0 {
        state
    } else {
        let before = state_after(core, state, steps.drop_last());
        match steps.last().event {
            Some(event) => core(before, event).0,
            None => before,
        }
    }
}

/// Where the log and the core disagree, from `state` on.
pub open spec fn divergence<S, E>(
    core: spec_fn(S, E) -> (S, Seq<EffectView>),
    state: S,
    steps: Seq<LoggedStep<E>>,
) -> Seq<MismatchView>
    decreases steps.len(),
{
    if steps.len() == 0 {
        Seq::empty()
    } else {
        let found = divergence(core, state, steps.drop_last());
        let step = steps.last();
        match step.event {
            Some(event) => {
                let logged = effect_views(readable(step.effects@));
                let recomputed = core(state_after(core, state, steps.drop_last()), event).1;
                if logged == recomputed {
                    found
                } else {
                    found.push(MismatchView { seq: step.seq, logged, recomputed })
                }
            },
            None => found,
        }
    }
}

/// How many of the steps could be read.
pub open spec fn read_back<E>(steps: Seq<LoggedStep<E>>) -> nat
    decreases steps.len(),
{
    if steps.len() == 0 {
        0
    } else {
        read_back(steps.drop_last()) + (if steps.last().event is Some {
            1nat
        } else {
            0nat
        })
    }
}

/// Whatever `update` returns is what `core` says.
pub open spec fn decides_as<S, E, F: Fn(&S, &E) -> (S, Vec<Effect>)>(
    update: F,
    core: spec_fn(S, E) -> (S, Seq<EffectView>),
) -> bool {
    forall|s: S, e: E, r: (S, Vec<Effect>)| #[trigger]
        update.ensures((&s, &e), r) ==> (r.0, effect_views(r.1@)) == core(s, e)
}

/// Replay the steps of a run from `state`, which is the state before event
/// `from_seq`, and compare what `update` decides with what was logged.
pub fn replay<S, E, F: Fn(&S, &E) -> (S, Vec<Effect>)>(
    run_id: i64,
    from_seq: u64,
    state: S,
    steps: Vec<LoggedStep<E>>,
    update: F,
) -> (r: ReplayReport)
    requires
        forall|s: S, e: E| #[trigger] update.requires((&s, &e)),
    ensures
        r.run_id == run_id,
        r.from_seq == from_seq,
        r.events_replayed == read_back(steps@),
        forall|core: spec_fn(S, E) -> (S, Seq<EffectView>)|
            #![trigger decides_as(update, core)]
            decides_as(update, core) ==> mismatch_views(r.mismatches@) == divergence(
                core,
                state,
                steps@,
            ),
{
    let ghost all = steps@;
    assert(all.len() == steps.len());
    let ghost start = state;
    let mut state = state;
    let mut events_replayed: usize = 0;
    let mut mismatches: Vec<Mismatch> = Vec::new();
    assert(mismatch_views(mismatches@) =~= Seq::<MismatchView>::empty());
    for step in it: steps
        invariant
            it.seq() == all,
            forall|s: S, e: E| #[trigger] update.requires((&s, &e)),
            events_replayed == read_back(all.take(it.index())),
            events_replayed <= it.index() <= all.len() <= usize::MAX,
            forall|core: spec_fn(S, E) -> (S, Seq<EffectView>)|
                #![trigger decides_as(update, core)]
                decides_as(update, core) ==> state == state_after(core, start, all.take(it.index()))
                    && mismatch_views(mismatches@) == divergence(
                    core,
                    start,
                    all.take(it.index()),
                ),
    {
        let ghost k = it.index();
        let ghost before = state;
        let ghost found = mismatches@;
        assert(all.take(k + 1).drop_last() =~= all.take(k));
        assert(all.take(k + 1).last() == step);
        let LoggedStep { seq, event, effects } = step;
        if let Some(event) = event {
            let (next, recomputed) = update(&state, &event);
            let logged = logged_effects(effects);
            if !same_effects(&logged, &recomputed) {
                let ghost m = Mismatch { seq, logged, recomputed };
                mismatches.push(Mismatch { seq, logged, recomputed });
                assert(mismatch_views(mismatches@) =~= mismatch_views(found).push(m@));
            }
            state = next;
            events_replayed += 1;
        }
    }
    assert(all.take(all.len() as int) =~= all);
    ReplayReport { run_id, from_seq, events_replayed, mismatches }
}

/// The steps are what a run under `core` logs, starting from `state`.
pub open spec fn logged_by<S, E>(
    core: spec_fn(S, E) -> (S, Seq<EffectView>),
    state: S,
    steps: Seq<LoggedStep<E>>,
) -> bool
    decreases steps.len(),
{
    steps.len() == 0 || {
        let step = steps.last();
        &&& logged_by(core, state, steps.drop_last())
        &&& step.event matches Some(event)
        &&& effect_views(readable(step.effects@)) == core(
            state_after(core, state, steps.drop_last()),
            event,
        ).1
    }
}

/// A logged run replays without divergence, and every one of its events is
/// verified.
pub proof fn law_logged_run_replays_clean<S, E>(
    core: spec_fn(S, E) -> (S, Seq<EffectView>),
    state: S,
    steps: Seq<LoggedStep<E>>,
)
    requires
        logged_by(core, state, steps),
    ensures
        divergence(core, state, steps) == Seq::<MismatchView>::empty(),
        read_back(steps) == steps.len(),
    decreases steps.len(),
{
    if steps.len() > 0 {
        law_logged_run_replays_clean(core, state, steps.drop_last());
    }
}

/// A clean replay of a run that could be read in full means that the run is one
/// the core would have logged.
pub proof fn law_clean_replay_means_logged_by_the_core<S, E>(
    core: spec_fn(S, E) -> (S, Seq<EffectView>),
    state: S,
    steps: Seq<LoggedStep<E>>,
)
    requires
        divergence(core, state, steps).len() == 0,
        read_back(steps) == steps.len(),
    ensures
        logged_by(core, state, steps),
    decreases steps.len(),
{
    lemma_read_back(steps);
    if steps.len() > 0 {
        lemma_read_back(steps.drop_last());
        law_clean_replay_means_logged_by_the_core(core, state, steps.drop_last());
    }
}

proof fn lemma_read_back<E>(steps: Seq<LoggedStep<E>>)
    ensures
        read_back(steps) <= steps.len(),
    decreases steps.len(),
{
    if steps.len() > 0 {
        lemma_read_back(steps.drop_last());
    }
}

/// Replaying from a checkpoint finds what replaying the whole run finds past it,
/// and nothing else: `k` steps lead to the checkpoint, and its state is the
/// state after them.
pub proof fn law_checkpoint_replay_is_the_rest_of_the_run<S, E>(
    core: spec_fn(S, E) -> (S, Seq<EffectView>),
    state: S,
    steps: Seq<LoggedStep<E>>,
    k: int,
)
    requires
        0 <= k <= steps.len(),
    ensures
        divergence(core, state, steps) == divergence(core, state, steps.take(k)) + divergence(
            core,
            state_after(core, state, steps.take(k)),
            steps.skip(k),
        ),
        state_after(core, state, steps) == state_after(
            core,
            state_after(core, state, steps.take(k)),
            steps.skip(k),
        ),
        read_back(steps) == read_back(steps.take(k)) + read_back(steps.skip(k)),
    decreases steps.len(),
{
    if k == steps.len() {
        assert(steps.take(k) =~= steps);
        assert(steps.skip(k) =~= Seq::empty());
        assert(divergence(core, state, steps) =~= divergence(core, state, steps) + Seq::empty());
    } else {
        let init = steps.drop_last();
        law_checkpoint_replay_is_the_rest_of_the_run(core, state, init, k);
        assert(init.take(k) =~= steps.take(k));
        assert(steps.skip(k).drop_last() =~= init.skip(k));
        assert(steps.skip(k).last() == steps.last());
        let mid = state_after(core, state, steps.take(k));
        assert(divergence(core, state, steps) =~= divergence(core, state, steps.take(k))
            + divergence(core, mid, steps.skip(k)));
    }
}

/// The state a run leads to: its events in order, each with the effects logged
/// for it.
pub open spec fn ends_in<S, E>(
    core: spec_fn(S, E) -> (S, Seq<EffectView>),
    start: S,
    run: Seq<(E, Seq<EffectView>)>,
) -> S
    decreases run.len(),
{
    if run.len() == 0 {
        start
    } else {
        core(ends_in(core, start, run.drop_last()), run.last().0).0
    }
}

/// Every effect logged in a run is one the core decided on, and nothing it
/// decided on is missing.
pub open spec fn faithful<S, E>(
    core: spec_fn(S, E) -> (S, Seq<EffectView>),
    start: S,
    run: Seq<(E, Seq<EffectView>)>,
) -> bool
    decreases run.len(),
{
    run.len() == 0 || (faithful(core, start, run.drop_last()) && run.last().1 == core(
        ends_in(core, start, run.drop_last()),
        run.last().0,
    ).1)
}

/// The steps are a run as it is read back whole.
pub open spec fn reads_back<E>(run: Seq<(E, Seq<EffectView>)>, steps: Seq<LoggedStep<E>>) -> bool {
    &&& run.len() == steps.len()
    &&& forall|i: int|
        #![trigger run[i]]
        #![trigger steps[i]]
        0 <= i < run.len() ==> steps[i].event == Some(run[i].0) && effect_views(
            readable(steps[i].effects@),
        ) == run[i].1
}

/// A faithful run, read back whole, replays without divergence, and to the very
/// state it ended in.
pub proof fn law_faithful_run_replays_clean<S, E>(
    core: spec_fn(S, E) -> (S, Seq<EffectView>),
    start: S,
    run: Seq<(E, Seq<EffectView>)>,
    steps: Seq<LoggedStep<E>>,
)
    requires
        faithful(core, start, run),
        reads_back(run, steps),
    ensures
        divergence(core, start, steps) == Seq::<MismatchView>::empty(),
        read_back(steps) == run.len(),
        state_after(core, start, steps) == ends_in(core, start, run),
    decreases run.len(),
{
    if run.len() > 0 {
        let i = run.len() - 1;
        assert(run[i] == run.last() && steps[i] == steps.last());
        assert(reads_back(run.drop_last(), steps.drop_last())) by {
            assert forall|j: int|
                #![trigger run.drop_last()[j]]
                #![trigger steps.drop_last()[j]]
                0 <= j < run.drop_last().len() implies steps.drop_last()[j].event == Some(
                run.drop_last()[j].0,
            ) && effect_views(readable(steps.drop_last()[j].effects@)) == run.drop_last()[j].1 by {
                assert(run.drop_last()[j] == run[j] && steps.drop_last()[j] == steps[j]);
            }
        }
        law_faithful_run_replays_clean(core, start, run.drop_last(), steps.drop_last());
    }
}

/// What could be read of a log is all of it but the rows that could not: reading
/// two parts of it one after the other gives what both give, a row that could be
/// read gives its effect, and one that could not gives nothing.
pub proof fn law_only_unreadable_rows_are_left_out(
    a: Seq<Option<Effect>>,
    b: Seq<Option<Effect>>,
    e: Effect,
)
    ensures
        readable(a + b) == readable(a) + readable(b),
        readable(seq![Some(e)]) == seq![e],
        readable(seq![None]) == Seq::<Effect>::empty(),
        readable(a.push(None) + b) == readable(a + b),
        readable(a.push(Some(e)) + b) == readable(a).push(e) + readable(b),
{
    reveal_with_fuel(readable, 2);
    lemma_readable_append(a, b);
    lemma_readable_append(a.push(None), b);
    lemma_readable_append(a.push(Some(e)), b);
    assert(a.push(None).drop_last() =~= a);
    assert(a.push(Some(e)).drop_last() =~= a);
    assert(seq![Some(e)].drop_last() =~= Seq::<Option<Effect>>::empty());
    assert(seq![None::<Effect>].drop_last() =~= Seq::<Option<Effect>>::empty());
    assert(readable(seq![Some(e)]) =~= seq![e]);
    assert(readable(a.push(None)) == readable(a));
    assert(readable(a.push(Some(e))) == readable(a).push(e));
}

proof fn lemma_readable_append(a: Seq<Option<Effect>>, b: Seq<Option<Effect>>)
    ensures
        readable(a + b) == readable(a) + readable(b),
    decreases b.len(),
{
    if b.len() == 0 {
        assert(a + b =~= a);
        assert(readable(a) + readable(b) =~= readable(a));
    } else {
        assert((a + b).drop_last() =~= a + b.drop_last());
        lemma_readable_append(a, b.drop_last());
        assert(readable(a + b) =~= readable(a) + readable(b));
    }
}

/// Effects that were all written down and could all be read are read back as they
/// were: as many, in their order, none left out and none changed.
pub proof fn law_what_was_logged_is_read_back(effects: Seq<Effect>, rows: Seq<Option<Effect>>)
    requires
        rows.len() == effects.len(),
        forall|i: int| 0 <= i < rows.len() ==> #[trigger] rows[i] == Some(effects[i]),
    ensures
        readable(rows) == effects,
    decreases rows.len(),
{
    if rows.len() > 0 {
        assert(rows[rows.len() - 1] == Some(effects[effects.len() - 1]));
        law_what_was_logged_is_read_back(effects.drop_last(), rows.drop_last());
        assert(effects.drop_last().push(effects.last()) =~= effects);
    } else {
        assert(readable(rows) =~= effects);
    }
}

/// Each step of a run led from its state to the next: the core, put the event in
/// that state, decided on these effects and that next state.
pub open spec fn a_run<S, E>(
    core: spec_fn(S, E) -> (S, Seq<EffectView>),
    states: Seq<S>,
    events: Seq<E>,
    decided: Seq<Seq<Effect>>,
) -> bool {
    &&& states.len() == events.len() + 1
    &&& decided.len() == events.len()
    &&& forall|i: int|
        #![trigger events[i]]
        0 <= i < events.len() ==> core(states[i], events[i]) == (
            states[i + 1],
            effect_views(decided[i]),
        )
}

/// A run whose events and effects were written down as they were decided, and can
/// all be read, replays without a mismatch, every event of it, and ends in the
/// state it ended in.
pub proof fn law_a_run_logged_as_decided_replays_clean<S, E>(
    core: spec_fn(S, E) -> (S, Seq<EffectView>),
    states: Seq<S>,
    events: Seq<E>,
    decided: Seq<Seq<Effect>>,
    steps: Seq<LoggedStep<E>>,
)
    requires
        a_run(core, states, events, decided),
        steps.len() == events.len(),
        forall|i: int|
            #![trigger steps[i]]
            0 <= i < steps.len() ==> steps[i].event == Some(events[i]) && steps[i].effects@.len()
                == decided[i].len() && forall|j: int|
                0 <= j < decided[i].len() ==> #[trigger] steps[i].effects@[j] == Some(
                    decided[i][j],
                ),
    ensures
        divergence(core, states[0], steps).len() == 0,
        read_back(steps) == events.len(),
        state_after(core, states[0], steps) == states.last(),
    decreases steps.len(),
{
    if steps.len() > 0 {
        let n = steps.len() - 1;
        let fewer = steps.drop_last();
        assert forall|i: int|
            #![trigger fewer[i]]
            0 <= i < fewer.len() implies fewer[i].event == Some(events.drop_last()[i])
            && fewer[i].effects@.len() == decided.drop_last()[i].len() && forall|j: int|
            0 <= j < decided.drop_last()[i].len() ==> #[trigger] fewer[i].effects@[j] == Some(
                decided.drop_last()[i][j],
            ) by {
            assert(fewer[i] == steps[i]);
        }
        assert(a_run(core, states.drop_last(), events.drop_last(), decided.drop_last())) by {
            assert forall|i: int|
                #![trigger events.drop_last()[i]]
                0 <= i < events.drop_last().len() implies core(
                states.drop_last()[i],
                events.drop_last()[i],
            ) == (states.drop_last()[i + 1], effect_views(decided.drop_last()[i])) by {
                assert(events.drop_last()[i] == events[i]);
            }
        }
        law_a_run_logged_as_decided_replays_clean(
            core,
            states.drop_last(),
            events.drop_last(),
            decided.drop_last(),
            fewer,
        );
        assert(steps[n] == steps.last());
        assert(core(states[n], events[n]) == (states[n + 1], effect_views(decided[n])));
        law_what_was_logged_is_read_back(decided[n], steps[n].effects@);
    }
}

/// A replay points at the exact events that differ: with every event read, an
/// event is among the mismatches exactly if what was logged for it is not what the
/// core decides there, and the mismatch holds the two.
pub proof fn law_replay_points_at_exactly_what_differs<S, E>(
    core: spec_fn(S, E) -> (S, Seq<EffectView>),
    states: Seq<S>,
    events: Seq<E>,
    steps: Seq<LoggedStep<E>>,
    i: int,
)
    requires
        states.len() == events.len() + 1,
        steps.len() == events.len(),
        forall|k: int|
            #![trigger events[k]]
            0 <= k < events.len() ==> core(states[k], events[k]).0 == states[k + 1],
        forall|k: int|
            #![trigger steps[k]]
            0 <= k < steps.len() ==> steps[k].event == Some(events[k]) && steps[k].seq == k,
        0 <= i < steps.len(),
    ensures
        ({
            let logged = effect_views(readable(steps[i].effects@));
            let recomputed = core(states[i], events[i]).1;
            let found = divergence(core, states[0], steps);
            &&& logged != recomputed <==> exists|m: int|
                0 <= m < found.len() && (#[trigger] found[m]).seq == i
            &&& forall|m: int|
                0 <= m < found.len() && (#[trigger] found[m]).seq == i ==> found[m].logged
                    == logged && found[m].recomputed == recomputed
        }),
        forall|m: int|
            0 <= m < divergence(core, states[0], steps).len() ==> (#[trigger] divergence(
                core,
                states[0],
                steps,
            )[m]).seq < steps.len(),
        state_after(core, states[0], steps) == states.last(),
    decreases steps.len(),
{
    let n = steps.len() - 1;
    let fewer = steps.drop_last();
    let found = divergence(core, states[0], steps);
    let before = divergence(core, states[0], fewer);
    assert(steps[n] == steps.last());
    assert(core(states[n], events[n]).0 == states[n + 1]);
    assert forall|k: int|
        #![trigger fewer[k]]
        0 <= k < fewer.len() implies fewer[k].event == Some(events.drop_last()[k])
        && fewer[k].seq == k by {
        assert(fewer[k] == steps[k]);
    }
    assert forall|k: int|
        #![trigger events.drop_last()[k]]
        0 <= k < events.drop_last().len() implies core(
        states.drop_last()[k],
        events.drop_last()[k],
    ).0 == states.drop_last()[k + 1] by {
        assert(events.drop_last()[k] == events[k]);
    }
    if fewer.len() > 0 {
        let k: int = if i < n {
            i
        } else {
            0
        };
        law_replay_points_at_exactly_what_differs(
            core,
            states.drop_last(),
            events.drop_last(),
            fewer,
            k,
        );
        assert(fewer[k] == steps[k]);
    }
    assert(state_after(core, states[0], fewer) == states[n]);
    assert forall|m: int| 0 <= m < before.len() implies (#[trigger] before[m]).seq < n by {}
    if i < n {
        if exists|m: int| 0 <= m < before.len() && (#[trigger] before[m]).seq == i {
            let m = choose|m: int| 0 <= m < before.len() && (#[trigger] before[m]).seq == i;
            assert(found[m] == before[m]);
        }
        assert forall|m: int| 0 <= m < found.len() && (#[trigger] found[m]).seq == i implies m
            < before.len() && found[m] == before[m] by {}
    } else {
        let logged = effect_views(readable(steps[n].effects@));
        if logged != core(states[n], events[n]).1 {
            assert(found[before.len() as int].seq == n);
        }
        assert forall|m: int| 0 <= m < found.len() && (#[trigger] found[m]).seq == n implies m
            == before.len() && logged != core(states[n], events[n]).1 by {
            if m < before.len() {
                assert(found[m] == before[m]);
            }
        }
    }
}

/// The checkpoint to start from is one there is, at or before the event asked for,
/// with no other between the two.
pub proof fn law_no_checkpoint_lies_between(checkpoints: Seq<u64>, target: u64, best: u64, i: int)
    requires
        is_latest(checkpoints, target, best),
        0 <= i < checkpoints.len(),
    ensures
        best <= target,
        !(best < checkpoints[i] <= target),
        exists|k: int| 0 <= k < checkpoints.len() && #[trigger] checkpoints[k] == best,
{
}

/// An event that could not be read is passed over, whatever was logged for it: it
/// counts for nothing, changes nothing and shows no mismatch.
pub proof fn law_unreadable_events_are_passed_over<S, E>(
    core: spec_fn(S, E) -> (S, Seq<EffectView>),
    state: S,
    a: Seq<LoggedStep<E>>,
    step: LoggedStep<E>,
)
    requires
        step.event is None,
    ensures
        divergence(core, state, a.push(step)) == divergence(core, state, a),
        state_after(core, state, a.push(step)) == state_after(core, state, a),
        read_back(a.push(step)) == read_back(a),
{
    assert(a.push(step).drop_last() =~= a);
}

/// A mismatch is seen as what it is: its place, what was logged and what was
/// decided, each for itself.
pub proof fn law_mismatches_are_seen_as_what_they_are(mismatches: Seq<Mismatch>, i: int)
    requires
        0 <= i < mismatches.len(),
    ensures
        mismatch_views(mismatches).len() == mismatches.len(),
        mismatch_views(mismatches)[i].seq == mismatches[i].seq,
        mismatch_views(mismatches)[i].logged == effect_views(mismatches[i].logged@),
        mismatch_views(mismatches)[i].recomputed == effect_views(mismatches[i].recomputed@),
{
}

} // verus!
