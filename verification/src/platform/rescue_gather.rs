//! The rescue gather: put displaced windows back where they can be seen.
//!
//! It trusts only the log and a fresh look. Every window the log says was
//! moved, and every one that is off screen regardless of the log, is brought
//! onto the main display, each a little further along than the last so that
//! they do not cover each other. Running it twice is harmless.

use crate::vocab::WindowId;
use vstd::prelude::*;

verus! {

/// One window to bring back.
#[derive(Clone, Copy, Debug, PartialEq, Eq, Structural)]
pub struct Gathered {
    /// Which of the windows seen.
    pub window: usize,
    /// Its place in the cascade.
    pub cascade: usize,
}

/// A window is displaced: the log names it, or it is off screen.
pub open spec fn is_displaced(touched: Seq<WindowId>, window: (WindowId, bool)) -> bool {
    touched.contains(window.0) || window.1
}

/// The displaced ones of the first `n` windows, in order.
pub open spec fn displaced(touched: Seq<WindowId>, windows: Seq<(WindowId, bool)>, n: int) -> Seq<
    Gathered,
>
    decreases n,
{
    if n <= 0 {
        Seq::empty()
    } else {
        let before = displaced(touched, windows, n - 1);
        if is_displaced(touched, windows[n - 1]) {
            before.push(Gathered { window: (n - 1) as usize, cascade: before.len() as usize })
        } else {
            before
        }
    }
}

/// Plan a gather: `touched` are the windows the log names, and of each window
/// seen it is told whether it is off screen.
pub fn gather(touched: &Vec<WindowId>, windows: &Vec<(WindowId, bool)>) -> (r: Vec<Gathered>)
    ensures
        r@ == displaced(touched@, windows@, windows@.len() as int),
        r@.len() <= windows@.len(),
        forall|i: int|
            0 <= i < windows@.len() ==> ((touched@.contains((#[trigger] windows@[i]).0)
                || windows@[i].1) <==> exists|k: int|
                0 <= k < r@.len() && (#[trigger] r@[k]).window == i),
        forall|k: int| 0 <= k < r@.len() ==> (#[trigger] r@[k]).cascade == k,
{
    proof {
        assert(windows.len() == windows@.len());
        law_gathers_exactly_the_displaced(touched@, windows@, windows@.len() as int);
    }
    let mut out: Vec<Gathered> = Vec::new();
    for i in 0..windows.len()
        invariant
            out@ == displaced(touched@, windows@, i as int),
            out@.len() <= i,
    {
        let (id, offscreen) = windows[i];
        if offscreen || names(touched, id) {
            let cascade: usize = out.len();
            out.push(Gathered { window: i, cascade });
        }
    }
    out
}

fn names(touched: &Vec<WindowId>, id: WindowId) -> (r: bool)
    ensures
        r == touched@.contains(id),
{
    for i in 0..touched.len()
        invariant
            forall|j: int| 0 <= j < i ==> touched@[j] != id,
    {
        if touched[i].0 == id.0 {
            assert(touched@[i as int] == id);
            return true;
        }
    }
    false
}

/// The display to gather onto: the main one, else the first. With no display
/// there is nothing to gather onto.
pub fn target_display(mains: &Vec<bool>) -> (r: Option<usize>)
    ensures
        r is None <==> mains@.len() == 0,
        r matches Some(i) ==> i < mains@.len() && (if exists|j: int|
            0 <= j < mains@.len() && #[trigger] mains@[j] {
            mains@[i as int] && forall|j: int| 0 <= j < i ==> !#[trigger] mains@[j]
        } else {
            i == 0
        }),
{
    if mains.len() == 0 {
        return None;
    }
    for i in 0..mains.len()
        invariant
            mains@.len() > 0,
            forall|j: int| 0 <= j < i ==> !#[trigger] mains@[j],
    {
        if mains[i] {
            return Some(i);
        }
    }
    Some(0)
}

/// Every displaced window is gathered, none that is where it belongs is
/// touched, and the cascade counts them off.
pub proof fn law_gathers_exactly_the_displaced(
    touched: Seq<WindowId>,
    windows: Seq<(WindowId, bool)>,
    n: int,
)
    requires
        0 <= n <= windows.len() <= usize::MAX,
    ensures
        forall|i: int|
            0 <= i < n ==> (is_displaced(touched, #[trigger] windows[i]) <==> exists|k: int|
                0 <= k < displaced(touched, windows, n).len() && (#[trigger] displaced(
                    touched,
                    windows,
                    n,
                )[k]).window == i),
        forall|k: int|
            0 <= k < displaced(touched, windows, n).len() ==> (#[trigger] displaced(
                touched,
                windows,
                n,
            )[k]).cascade == k && displaced(touched, windows, n)[k].window < n,
        displaced(touched, windows, n).len() <= n,
    decreases n,
{
    if n > 0 {
        law_gathers_exactly_the_displaced(touched, windows, n - 1);
        let before = displaced(touched, windows, n - 1);
        let after = displaced(touched, windows, n);
        assert forall|i: int| 0 <= i < n implies (is_displaced(touched, #[trigger] windows[i])
            <==> exists|k: int| 0 <= k < after.len() && (#[trigger] after[k]).window == i) by {
            if is_displaced(touched, windows[i]) {
                if i < n - 1 {
                    let k = choose|k: int|
                        0 <= k < before.len() && (#[trigger] before[k]).window == i;
                    assert(after[k].window == i);
                } else {
                    assert(after[before.len() as int].window == i);
                }
            }
            if exists|k: int| 0 <= k < after.len() && (#[trigger] after[k]).window == i {
                let k = choose|k: int| 0 <= k < after.len() && (#[trigger] after[k]).window == i;
                if k < before.len() {
                    assert(before[k].window == i);
                }
            }
        }
    }
}

/// A window the log names is displaced wherever it is seen, one the log does
/// not name is if it is off screen, and no other is.
pub proof fn law_the_log_or_the_screen_tells(
    touched: Seq<WindowId>,
    window: WindowId,
    offscreen: bool,
)
    ensures
        is_displaced(touched, (window, true)),
        is_displaced(touched, (window, false)) <==> touched.contains(window),
        is_displaced(Seq::empty(), (window, offscreen)) <==> offscreen,
{
}

/// Windows are gathered in the order they are seen in, and none twice.
pub proof fn law_gathers_in_the_order_seen(
    touched: Seq<WindowId>,
    windows: Seq<(WindowId, bool)>,
    n: int,
)
    requires
        0 <= n <= windows.len() <= usize::MAX,
    ensures
        forall|j: int, k: int|
            0 <= j < k < displaced(touched, windows, n).len() ==> (#[trigger] displaced(
                touched,
                windows,
                n,
            )[j]).window < (#[trigger] displaced(touched, windows, n)[k]).window,
    decreases n,
{
    if n > 0 {
        law_gathers_in_the_order_seen(touched, windows, n - 1);
        law_gathers_exactly_the_displaced(touched, windows, n - 1);
    }
}

} // verus!
