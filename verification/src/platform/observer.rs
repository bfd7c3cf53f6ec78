//! Hints that a window was created, from one observer per app.
//!
//! A look cannot tell a window that was just created from one that was missed
//! before; only the app's own notification can. So every app is attached to,
//! once, whether or not attaching succeeds.

use crate::engine::Msg;
use crate::vocab::{AxHintKind, Pid, RescanTrigger};
use vstd::prelude::*;

verus! {

/// The apps to attach to: those in the Dock that are real processes and have
/// not been attached to, each once.
pub open spec fn fresh(running: Seq<(bool, i32)>, attached: Seq<i32>) -> Seq<i32>
    decreases running.len(),
{
    if running.len() == 0 {
        Seq::empty()
    } else {
        let before = fresh(running.drop_last(), attached);
        let (regular, pid) = running.last();
        if regular && pid > 0 && !attached.contains(pid) && !before.contains(pid) {
            before.push(pid)
        } else {
            before
        }
    }
}

fn holds(list: &Vec<i32>, pid: i32) -> (r: bool)
    ensures
        r == list@.contains(pid),
{
    for i in 0..list.len()
        invariant
            forall|j: int| 0 <= j < i ==> list@[j] != pid,
    {
        if list[i] == pid {
            assert(list@[i as int] == pid);
            return true;
        }
    }
    false
}

/// The apps to attach to now. They count as attached from here on: retrying an
/// app that refused is only noise.
pub fn attach_new(running: &Vec<(bool, i32)>, attached: &mut Vec<i32>) -> (r: Vec<i32>)
    ensures
        r@ == fresh(running@, old(attached)@),
        final(attached)@ == old(attached)@ + r@,
{
    let ghost before = attached@;
    let mut out: Vec<i32> = Vec::new();
    for i in 0..running.len()
        invariant
            attached@ == before,
            out@ == fresh(running@.take(i as int), before),
    {
        assert(running@.take(i + 1).drop_last() =~= running@.take(i as int));
        let (regular, pid) = running[i];
        if regular && pid > 0 && !holds(attached, pid) && !holds(&out, pid) {
            out.push(pid);
        }
    }
    assert(running@.take(running@.len() as int) =~= running@);
    for i in 0..out.len()
        invariant
            attached@ == before + out@.take(i as int),
    {
        attached.push(out[i]);
        assert(out@.take(i + 1) =~= out@.take(i as int).push(out@[i as int]));
    }
    assert(out@.take(out@.len() as int) =~= out@);
    out
}

/// Attaching again at once finds nothing new.
pub proof fn law_apps_are_attached_once(running: Seq<(bool, i32)>, attached: Seq<i32>)
    ensures
        fresh(running, attached + fresh(running, attached)) == Seq::<i32>::empty(),
{
    lemma_none_fresh(running, attached, running.len() as int);
    assert(running.take(running.len() as int) =~= running);
}

proof fn lemma_none_fresh(running: Seq<(bool, i32)>, attached: Seq<i32>, n: int)
    requires
        0 <= n <= running.len(),
    ensures
        fresh(running.take(n), attached + fresh(running, attached)) == Seq::<i32>::empty(),
    decreases n,
{
    if n > 0 {
        lemma_none_fresh(running, attached, n - 1);
        assert(running.take(n).drop_last() =~= running.take(n - 1));
        let (regular, pid) = running[n - 1];
        if regular && pid > 0 {
            let all = attached + fresh(running, attached);
            lemma_fresh_covers(running, attached, n - 1);
            if attached.contains(pid) {
                let k = choose|k: int| 0 <= k < attached.len() && attached[k] == pid;
                assert(all[k] == pid);
            } else {
                let k = choose|k: int|
                    0 <= k < fresh(running, attached).len() && fresh(running, attached)[k] == pid;
                assert(all[attached.len() + k] == pid);
            }
        }
    }
}

proof fn lemma_fresh_covers(running: Seq<(bool, i32)>, attached: Seq<i32>, i: int)
    requires
        0 <= i < running.len(),
        running[i].0 && running[i].1 > 0,
    ensures
        attached.contains(running[i].1) || fresh(running, attached).contains(running[i].1),
    decreases running.len(),
{
    let init = running.drop_last();
    let before = fresh(init, attached);
    let after = fresh(running, attached);
    let pid = running[i].1;
    if i < init.len() {
        assert(init[i] == running[i]);
        lemma_fresh_covers(init, attached, i);
        if before.contains(pid) {
            let k = choose|k: int| 0 <= k < before.len() && before[k] == pid;
            assert(after[k] == pid);
        }
    } else if before.contains(pid) {
        let k = choose|k: int| 0 <= k < before.len() && before[k] == pid;
        assert(after[k] == pid);
    } else if !attached.contains(pid) {
        assert(after[before.len() as int] == pid);
    }
}

/// The hint an app's notification becomes; `pid` is the app, as far as it could
/// be told.
pub fn window_created(told: bool, pid: i32) -> (r: Msg)
    ensures
        r == Msg::Rescan(
            (RescanTrigger::AxHint {
                pid: if told && pid > 0 {
                    Some(Pid(pid))
                } else {
                    None
                },
                kind: AxHintKind::WindowCreated,
            }),
        ),
{
    let pid = if told && pid > 0 {
        Some(Pid(pid))
    } else {
        None
    };
    Msg::Rescan(RescanTrigger::AxHint { pid, kind: AxHintKind::WindowCreated })
}

/// An app is attached to exactly if it is in the Dock, is a real process, and
/// has not been attached to before.
pub proof fn law_exactly_the_new_dock_apps_are_attached(
    running: Seq<(bool, i32)>,
    attached: Seq<i32>,
    pid: i32,
)
    ensures
        fresh(running, attached).contains(pid) <==> running.contains((true, pid)) && pid > 0
            && !attached.contains(pid),
        fresh(running, attached).no_duplicates(),
    decreases running.len(),
{
    if running.len() > 0 {
        let init = running.drop_last();
        let before = fresh(init, attached);
        let after = fresh(running, attached);
        law_exactly_the_new_dock_apps_are_attached(init, attached, pid);
        if running.contains((true, pid)) && pid > 0 && !attached.contains(pid) {
            let i = choose|i: int| 0 <= i < running.len() && running[i] == (true, pid);
            lemma_fresh_covers(running, attached, i);
        }
        if after.contains(pid) {
            let k = choose|k: int| 0 <= k < after.len() && after[k] == pid;
            if k < before.len() {
                assert(before[k] == pid);
                let i = choose|i: int| 0 <= i < init.len() && init[i] == (true, pid);
                assert(running[i] == (true, pid));
            } else {
                assert(running[running.len() - 1] == (true, pid));
            }
        }
        assert forall|i: int, j: int|
            0 <= i < after.len() && 0 <= j < after.len() && i != j implies after[i]
            != after[j] by {
            if i < before.len() {
                assert(before[i] == after[i]);
            }
            if j < before.len() {
                assert(before[j] == after[j]);
            }
        }
    }
}

/// Apps that turn up later are attached to later.
pub proof fn law_apps_are_attached_in_the_order_found(
    a: Seq<(bool, i32)>,
    b: Seq<(bool, i32)>,
    attached: Seq<i32>,
)
    ensures
        fresh(a, attached).is_prefix_of(fresh(a + b, attached)),
    decreases b.len(),
{
    if b.len() == 0 {
        assert(a + b =~= a);
    } else {
        law_apps_are_attached_in_the_order_found(a, b.drop_last(), attached);
        assert((a + b).drop_last() =~= a + b.drop_last());
    }
}

} // verus!
