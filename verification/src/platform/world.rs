//! A full observation of the world: displays, windows and workspaces, joined.

use crate::backend::{BackendTopology, MonitorWorkspace, WorkspaceBackend};
use crate::menubar::VirtualMonitors;
use crate::platform::ax::AxWindow;
use crate::platform::display::DisplayInfo;
use crate::ports::SnapshotStats;
use crate::vocab::{Pid, Rect, VirtualMonitorId, WindowId, WorkspaceId};
use std::collections::HashMap;
use vstd::prelude::*;

verus! {

broadcast use vstd::std_specs::hash::group_hash_axioms;

/// A window as the core is told of it.
#[derive(Debug)]
pub struct WindowSnap {
    pub id: WindowId,
    pub app: Pid,
    pub bundle_id: Option<String>,
    pub title: String,
    pub frame: Rect,
    pub subrole: Option<String>,
}

/// The workspaces as the core is told of them. What the backend could not
/// resolve is absent, never filled in.
#[derive(Debug)]
pub struct WorkspaceSnap {
    pub monitors: Vec<MonitorWorkspace>,
    /// By the window's number.
    pub assignments: HashMap<u32, WorkspaceId>,
    pub virtual_monitors: Option<(VirtualMonitors, HashMap<u32, VirtualMonitorId>)>,
}

/// One observation.
#[derive(Debug)]
pub struct WorldSnapshot {
    pub monitors: Vec<DisplayInfo>,
    pub windows: Vec<WindowSnap>,
    pub focused: Option<WindowId>,
    pub workspaces: WorkspaceSnap,
}

/// The frame the core is told of a window: what the backend knows better, else
/// what was seen.
pub open spec fn told_frame(w: AxWindow, believed: Map<u32, Rect>) -> Rect {
    if believed.contains_key(w.id.0) {
        believed[w.id.0]
    } else {
        w.frame
    }
}

/// `snap` is how the core is told of the window.
pub open spec fn tells(snap: WindowSnap, w: AxWindow, believed: Map<u32, Rect>) -> bool {
    &&& snap.id == w.id
    &&& snap.app == w.app
    &&& snap.bundle_id == w.bundle_id
    &&& snap.title == w.title
    &&& snap.frame == told_frame(w, believed)
    &&& snap.subrole == w.subrole
}

/// Join what was seen into one observation. `believed` are frames the backend
/// knows better than the screen shows them, by the window's number: what its
/// own mechanism does to a window never reaches the core. A backend that could
/// not answer says nothing of the workspaces, and while displays are settling
/// there are none to be seen.
pub fn snapshot(
    displays: Vec<DisplayInfo>,
    settling: bool,
    windows: Vec<AxWindow>,
    focused: Option<WindowId>,
    topology: Option<BackendTopology>,
    believed: &HashMap<u32, Rect>,
) -> (r: WorldSnapshot)
    ensures
        settling ==> r.monitors@.len() == 0,
        !settling ==> r.monitors == displays,
        r.windows@.len() == windows@.len(),
        forall|i: int|
            0 <= i < windows@.len() ==> tells(#[trigger] r.windows@[i], windows@[i], believed@),
        forall|i: int|
            0 <= i < windows@.len() ==> {
                let (snap, w) = (#[trigger] r.windows@[i], windows@[i]);
                &&& snap.id == w.id && snap.app == w.app && snap.bundle_id == w.bundle_id
                &&& snap.title == w.title && snap.subrole == w.subrole
                &&& believed@.contains_key(w.id.0) ==> snap.frame == believed@[w.id.0]
                &&& !believed@.contains_key(w.id.0) ==> snap.frame == w.frame
            },
        r.focused == focused,
        match topology {
            Some(t) => r.workspaces.monitors == t.monitors && r.workspaces.assignments
                == t.window_ws && r.workspaces.virtual_monitors == t.virtual_monitors,
            None => r.workspaces.monitors@.len() == 0 && r.workspaces.assignments@ == Map::<
                u32,
                WorkspaceId,
            >::empty() && r.workspaces.virtual_monitors is None,
        },
{
    let ghost all = windows@;
    let mut snaps: Vec<WindowSnap> = Vec::new();
    for w in it: windows
        invariant
            it.seq() == all,
            snaps@.len() == it.index(),
            forall|i: int| 0 <= i < snaps@.len() ==> tells(#[trigger] snaps@[i], all[i], believed@),
    {
        let frame = match believed.get(&w.id.0) {
            Some(frame) => *frame,
            None => w.frame,
        };
        snaps.push(
            WindowSnap {
                id: w.id,
                app: w.app,
                bundle_id: w.bundle_id,
                title: w.title,
                frame,
                subrole: w.subrole,
            },
        );
    }
    let workspaces = match topology {
        Some(t) => WorkspaceSnap {
            monitors: t.monitors,
            assignments: t.window_ws,
            virtual_monitors: t.virtual_monitors,
        },
        None => WorkspaceSnap {
            monitors: Vec::new(),
            assignments: HashMap::new(),
            virtual_monitors: None,
        },
    };
    WorldSnapshot {
        monitors: if settling {
            Vec::new()
        } else {
            displays
        },
        windows: snaps,
        focused,
        workspaces,
    }
}

/// Where each window was seen, by its number.
pub open spec fn seen_at(windows: Seq<AxWindow>) -> Map<u32, (Pid, Rect)>
    decreases windows.len(),
{
    if windows.len() == 0 {
        Map::empty()
    } else {
        let w = windows.last();
        seen_at(windows.drop_last()).insert(w.id.0, (w.app, w.frame))
    }
}

/// Where each window was seen, by its number.
pub fn frames_of(windows: &Vec<AxWindow>) -> (r: HashMap<u32, (Pid, Rect)>)
    ensures
        r@ == seen_at(windows@),
{
    let mut frames: HashMap<u32, (Pid, Rect)> = HashMap::new();
    for i in 0..windows.len()
        invariant
            frames@ == seen_at(windows@.take(i as int)),
    {
        assert(windows@.take(i + 1).drop_last() =~= windows@.take(i as int));
        let w = &windows[i];
        frames.insert(w.id.0, (w.app, w.frame));
    }
    assert(windows@.take(windows@.len() as int) =~= windows@);
    frames
}

/// Put windows back where the backend says they are, but only while the daemon is
/// engaged: a rescue frees windows that the backend still has its own idea of.
pub fn place<B: WorkspaceBackend>(
    backend: &mut B,
    frames: &HashMap<u32, (Pid, Rect)>,
    engaged: bool,
)
    ensures
        engaged ==> call_ensures(B::enforce_placement, (backend, frames), ()),
        !engaged ==> *final(backend) == *old(backend),
{
    if engaged {
        let asked = (backend, frames);
        hand(B::enforce_placement, asked);
    }
}

/// Hand something to a request. What comes of it is whatever the request says may
/// come of it.
fn hand<B, A, R, F: FnOnce(B, A) -> R>(request: F, asked: (B, A)) -> (r: R)
    requires
        request.requires(asked),
    ensures
        request.ensures(asked, r),
{
    let (backend, given) = asked;
    request(backend, given)
}

/// `r` is the one of the apps that took longest to answer, with the time it took:
/// the first of them where several did, and none where none was asked.
pub open spec fn is_slowest(times: Seq<(Pid, u64)>, r: Option<(Pid, u64)>) -> bool {
    match r {
        None => times.len() == 0,
        Some(most) => exists|i: int|
            {
                &&& 0 <= i < times.len()
                &&& #[trigger] times[i] == most
                &&& forall|j: int| 0 <= j < i ==> (#[trigger] times[j]).1 < most.1
                &&& forall|j: int| i <= j < times.len() ==> (#[trigger] times[j]).1 <= most.1
            },
    }
}

/// The one of the apps that took longest to answer.
pub fn slowest(times: &Vec<(Pid, u64)>) -> (r: Option<(Pid, u64)>)
    ensures
        is_slowest(times@, r),
        r is None <==> times@.len() == 0,
        r matches Some(most) ==> times@.contains(most) && forall|j: int|
            0 <= j < times@.len() ==> (#[trigger] times@[j]).1 <= most.1,
{
    if times.len() == 0 {
        return None;
    }
    let mut at: usize = 0;
    for k in 1..times.len()
        invariant
            at < k <= times@.len(),
            forall|j: int| 0 <= j < at ==> (#[trigger] times@[j]).1 < times@[at as int].1,
            forall|j: int| at <= j < k ==> (#[trigger] times@[j]).1 <= times@[at as int].1,
    {
        if times[k].1 > times[at].1 {
            at = k;
        }
    }
    assert(times@[at as int] == times@[at as int]);
    Some(times[at])
}

/// What an observation cost: how long it took in all, to walk the apps and to
/// enforce placement, and how long each app took to answer.
pub fn cost(
    total: u64,
    walk: u64,
    enforce: u64,
    times: &Vec<(Pid, u64)>,
    windows: usize,
) -> (r: SnapshotStats)
    ensures
        r.total == total,
        r.walk == walk,
        r.enforce == enforce,
        r.apps == times@.len(),
        r.windows == windows,
        is_slowest(times@, r.slowest),
{
    SnapshotStats { total, walk, enforce, apps: times.len(), windows, slowest: slowest(times) }
}

/// The core is told of a window what was seen of it, each thing under its own
/// name; only the frame may be what the backend knows better, and then of this
/// very window.
pub proof fn law_windows_are_told_as_seen(snap: WindowSnap, w: AxWindow, believed: Map<u32, Rect>)
    requires
        tells(snap, w, believed),
    ensures
        snap.id == w.id,
        snap.app == w.app,
        snap.bundle_id == w.bundle_id,
        snap.title == w.title,
        snap.subrole == w.subrole,
        believed.contains_key(w.id.0) ==> snap.frame == believed[w.id.0],
        !believed.contains_key(w.id.0) ==> snap.frame == w.frame,
{
}

/// A window is found under its number with its own app and frame, the last one
/// seen where several had that number.
pub proof fn law_every_window_is_found_where_it_was_seen(windows: Seq<AxWindow>, i: int)
    requires
        0 <= i < windows.len(),
        forall|j: int| i < j < windows.len() ==> (#[trigger] windows[j]).id != windows[i].id,
    ensures
        seen_at(windows).contains_key(windows[i].id.0),
        seen_at(windows)[windows[i].id.0] == (windows[i].app, windows[i].frame),
    decreases windows.len(),
{
    if i < windows.len() - 1 {
        let init = windows.drop_last();
        assert(windows[windows.len() - 1].id != windows[i].id);
        assert(init[i] == windows[i]);
        assert forall|j: int| i < j < init.len() implies (#[trigger] init[j]).id
            != init[i].id by {
            assert(windows[j].id != windows[i].id);
        }
        law_every_window_is_found_where_it_was_seen(init, i);
    }
}

/// A window that was not seen is not found.
pub proof fn law_only_windows_that_were_seen_are_found(windows: Seq<AxWindow>, id: u32)
    requires
        forall|i: int| 0 <= i < windows.len() ==> (#[trigger] windows[i]).id.0 != id,
    ensures
        !seen_at(windows).contains_key(id),
    decreases windows.len(),
{
    if windows.len() > 0 {
        assert(windows[windows.len() - 1].id.0 != id);
        assert forall|i: int| 0 <= i < windows.drop_last().len() implies (
        #[trigger] windows.drop_last()[i]).id.0 != id by {
            assert(windows[i].id.0 != id);
        }
        law_only_windows_that_were_seen_are_found(windows.drop_last(), id);
    }
}

/// No app took longer than the slowest, and those asked before it took less.
pub proof fn law_the_slowest_took_longest(times: Seq<(Pid, u64)>, r: Option<(Pid, u64)>)
    requires
        is_slowest(times, r),
    ensures
        r is Some <==> times.len() > 0,
        r matches Some(most) ==> times.contains(most) && forall|j: int|
            0 <= j < times.len() ==> (#[trigger] times[j]).1 <= most.1,
        forall|k: int|
            0 <= k < times.len() && (#[trigger] times[k]).1 == r->Some_0.1 && (forall|j: int|
                0 <= j < k ==> (#[trigger] times[j]).1 != r->Some_0.1) ==> times[k] == r->Some_0,
{
}

} // verus!
