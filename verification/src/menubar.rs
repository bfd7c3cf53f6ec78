//! What the menu bar shows: every workspace, which one is current and what is
//! on each, and how the virtual monitors land on the displays present.
//!
//! Read from belief, never from intent, so the menu bar cannot show a switch
//! that has not landed.

use crate::vocab::{Mode, MonitorId, Pid, VirtualMonitorId, WindowId, WorkspaceId};
use vstd::prelude::*;

verus! {

/// A window, as far as the menu bar is concerned.
#[derive(Clone, Copy, Debug, PartialEq, Eq, Structural)]
pub struct WindowRecord {
    pub id: WindowId,
    pub app: Pid,
    pub workspace: WorkspaceId,
    pub vmonitor: VirtualMonitorId,
}

/// The virtual monitors.
#[derive(Clone, Copy, Debug, PartialEq, Eq, Structural)]
pub struct VirtualMonitors {
    pub count: u8,
    pub viewed: VirtualMonitorId,
    pub enabled: bool,
}

/// What the core believes, as far as the menu bar is concerned.
#[derive(Debug)]
pub struct State {
    pub workspace_count: u8,
    /// The workspace shown, once one is known.
    pub current: Option<WorkspaceId>,
    pub mode: Mode,
    /// Windows by how recently they were used, the latest first.
    pub focus_history: Vec<WindowId>,
    /// Every window, in the order of their numbers.
    pub windows: Vec<WindowRecord>,
    /// `None` under a backend with no virtual layer.
    pub virtual_monitors: Option<VirtualMonitors>,
    /// The physical displays, left to right.
    pub displays: Vec<MonitorId>,
    /// For each virtual monitor from the first on, the display showing it.
    pub hosts: Vec<Option<usize>>,
}

#[derive(Clone, Debug, PartialEq, Eq)]
pub struct MenuBarView {
    /// One per workspace, in order.
    pub workspaces: Vec<WorkspaceEntry>,
    pub current: Option<WorkspaceId>,
    /// False once rescued: commands are ignored then, so a pick from the menu
    /// would do nothing.
    pub engaged: bool,
    /// `None` under a backend with no virtual layer.
    pub monitors: Option<MonitorsView>,
}

#[derive(Clone, Debug, PartialEq, Eq)]
pub struct MonitorsView {
    /// The physical displays, left to right.
    pub displays: Vec<MonitorId>,
    /// One per virtual monitor, in order.
    pub monitors: Vec<MonitorEntry>,
    /// The monitor that stepping starts from; always on screen.
    pub viewed: VirtualMonitorId,
    pub enabled: bool,
}

#[derive(Clone, Copy, Debug, PartialEq, Eq, Structural)]
pub struct MonitorEntry {
    pub id: VirtualMonitorId,
    /// Index into [`MonitorsView::displays`], or `None` while hidden.
    pub display: Option<usize>,
    /// Windows of the current workspace on this monitor.
    pub windows: usize,
    /// Windows on this monitor across every workspace.
    pub all_windows: usize,
}

#[derive(Clone, Debug, PartialEq, Eq)]
pub struct WorkspaceEntry {
    pub id: WorkspaceId,
    /// Apps with a window here, each once, most recently used first.
    pub apps: Vec<Pid>,
}

/// [`WorkspaceEntry`] with its apps as a sequence.
pub struct WorkspaceEntrySpec {
    pub id: WorkspaceId,
    pub apps: Seq<Pid>,
}

impl View for WorkspaceEntry {
    type V = WorkspaceEntrySpec;

    open spec fn view(&self) -> WorkspaceEntrySpec {
        WorkspaceEntrySpec { id: self.id, apps: self.apps@ }
    }
}

/// [`MonitorsView`] with its lists as sequences.
pub struct MonitorsSpec {
    pub displays: Seq<MonitorId>,
    pub monitors: Seq<MonitorEntry>,
    pub viewed: VirtualMonitorId,
    pub enabled: bool,
}

impl View for MonitorsView {
    type V = MonitorsSpec;

    open spec fn view(&self) -> MonitorsSpec {
        MonitorsSpec {
            displays: self.displays@,
            monitors: self.monitors@,
            viewed: self.viewed,
            enabled: self.enabled,
        }
    }
}

/// [`MenuBarView`] with its lists as sequences.
pub struct MenuBarSpec {
    pub workspaces: Seq<WorkspaceEntrySpec>,
    pub current: Option<WorkspaceId>,
    pub engaged: bool,
    pub monitors: Option<MonitorsSpec>,
}

impl View for MenuBarView {
    type V = MenuBarSpec;

    open spec fn view(&self) -> MenuBarSpec {
        MenuBarSpec {
            workspaces: self.workspaces@.map_values(|e: WorkspaceEntry| e@),
            current: self.current,
            engaged: self.engaged,
            monitors: match self.monitors {
                Some(m) => Some(m@),
                None => None,
            },
        }
    }
}

fn same_apps(a: &Vec<Pid>, b: &Vec<Pid>) -> (r: bool)
    ensures
        r == (a@ == b@),
{
    if a.len() != b.len() {
        return false;
    }
    for i in 0..a.len()
        invariant
            a@.len() == b@.len(),
            forall|j: int| 0 <= j < i ==> a@[j] == b@[j],
    {
        if a[i].0 != b[i].0 {
            return false;
        }
    }
    assert(a@ =~= b@);
    true
}

fn same_workspaces(a: &Vec<WorkspaceEntry>, b: &Vec<WorkspaceEntry>) -> (r: bool)
    ensures
        r == (a@.map_values(|e: WorkspaceEntry| e@) == b@.map_values(|e: WorkspaceEntry| e@)),
{
    let ghost va = a@.map_values(|e: WorkspaceEntry| e@);
    let ghost vb = b@.map_values(|e: WorkspaceEntry| e@);
    if a.len() != b.len() {
        assert(va.len() != vb.len());
        return false;
    }
    for i in 0..a.len()
        invariant
            a@.len() == b@.len(),
            va == a@.map_values(|e: WorkspaceEntry| e@),
            vb == b@.map_values(|e: WorkspaceEntry| e@),
            forall|j: int| 0 <= j < i ==> va[j] == vb[j],
    {
        assert(va[i as int] == a@[i as int]@ && vb[i as int] == b@[i as int]@);
        if a[i].id.0 != b[i].id.0 || !same_apps(&a[i].apps, &b[i].apps) {
            return false;
        }
    }
    assert(va =~= vb);
    true
}

fn same_workspace(a: Option<WorkspaceId>, b: Option<WorkspaceId>) -> (r: bool)
    ensures
        r == (a == b),
{
    match (a, b) {
        (Some(x), Some(y)) => x.0 == y.0,
        (None, None) => true,
        _ => false,
    }
}

fn same_display(a: Option<usize>, b: Option<usize>) -> (r: bool)
    ensures
        r == (a == b),
{
    match (a, b) {
        (Some(x), Some(y)) => x == y,
        (None, None) => true,
        _ => false,
    }
}

fn same_monitors(a: &MonitorsView, b: &MonitorsView) -> (r: bool)
    ensures
        r == (a@ == b@),
{
    if a.displays.len() != b.displays.len() || a.monitors.len() != b.monitors.len() {
        return false;
    }
    for i in 0..a.displays.len()
        invariant
            a.displays@.len() == b.displays@.len(),
            forall|j: int| 0 <= j < i ==> a.displays@[j] == b.displays@[j],
    {
        if a.displays[i].0 != b.displays[i].0 {
            return false;
        }
    }
    assert(a.displays@ =~= b.displays@);
    for i in 0..a.monitors.len()
        invariant
            a.monitors@.len() == b.monitors@.len(),
            forall|j: int| 0 <= j < i ==> a.monitors@[j] == b.monitors@[j],
    {
        let (m, n) = (a.monitors[i], b.monitors[i]);
        if m.id.0 != n.id.0 || !same_display(m.display, n.display) || m.windows != n.windows
            || m.all_windows != n.all_windows {
            return false;
        }
    }
    assert(a.monitors@ =~= b.monitors@);
    a.viewed.0 == b.viewed.0 && a.enabled == b.enabled
}

impl MenuBarView {
    /// Whether the two show the same.
    pub fn same(&self, other: &MenuBarView) -> (r: bool)
        ensures
            r == (self@ == other@),
    {
        let monitors = match (&self.monitors, &other.monitors) {
            (Some(a), Some(b)) => same_monitors(a, b),
            (None, None) => true,
            _ => false,
        };
        monitors && self.engaged == other.engaged && same_workspace(self.current, other.current)
            && same_workspaces(&self.workspaces, &other.workspaces)
    }
}

/// How far down the history a window stands. One that is not in it comes after
/// all that are.
pub open spec fn rank(history: Seq<WindowId>, id: WindowId) -> int
    decreases history.len(),
{
    if history.len() == 0 {
        usize::MAX as int
    } else if history.last() == id {
        history.len() - 1
    } else {
        rank(history.drop_last(), id)
    }
}

impl State {
    /// Window `a` was used more recently than window `b`. Of two that were
    /// never used, the one with the lower number counts as the more recent.
    pub open spec fn earlier(&self, a: int, b: int) -> bool {
        let ra = rank(self.focus_history@, self.windows@[a].id);
        let rb = rank(self.focus_history@, self.windows@[b].id);
        ra < rb || (ra == rb && a < b)
    }

    /// Window `i` is one of the app's on the workspace.
    pub open spec fn shows(&self, ws: WorkspaceId, app: Pid, i: int) -> bool {
        &&& 0 <= i < self.windows@.len()
        &&& self.windows@[i].workspace == ws
        &&& self.windows@[i].app == app
    }

    /// Window `i` is the one of the app's on the workspace that was used last.
    pub open spec fn leads(&self, ws: WorkspaceId, app: Pid, i: int) -> bool {
        &&& self.shows(ws, app, i)
        &&& forall|j: int| #[trigger] self.shows(ws, app, j) ==> j == i || self.earlier(i, j)
    }

    /// `apps` are the apps with a window on the workspace, each once, ordered
    /// by the window of theirs that was used last.
    pub open spec fn lists_apps(&self, ws: WorkspaceId, apps: Seq<Pid>) -> bool {
        &&& forall|a: int, b: int| 0 <= a < b < apps.len() ==> apps[a] != apps[b]
        &&& forall|app: Pid|
            #![trigger apps.contains(app)]
            apps.contains(app) <==> exists|i: int| self.shows(ws, app, i)
        &&& forall|a: int, b: int, i: int, j: int|
            #![trigger self.leads(ws, apps[a], i), self.leads(ws, apps[b], j)]
            0 <= a < b < apps.len() && self.leads(ws, apps[a], i) && self.leads(ws, apps[b], j)
                ==> self.earlier(i, j)
    }

    /// How many windows are on the monitor: of one workspace, or of all.
    pub open spec fn on_monitor(&self, id: VirtualMonitorId, only: Option<WorkspaceId>) -> nat {
        count_on(self.windows@, id, only)
    }

    /// The display showing a virtual monitor.
    pub open spec fn host(&self, id: VirtualMonitorId) -> Option<usize> {
        if 1 <= id.0 <= self.hosts@.len() {
            self.hosts@[id.0 - 1]
        } else {
            None
        }
    }
}

/// How many of the windows are on the monitor, of one workspace or of all.
pub open spec fn count_on(
    windows: Seq<WindowRecord>,
    id: VirtualMonitorId,
    only: Option<WorkspaceId>,
) -> nat
    decreases windows.len(),
{
    if windows.len() == 0 {
        0
    } else {
        let w = windows.last();
        count_on(windows.drop_last(), id, only) + (if w.vmonitor == id && (only is None || only
            == Some(w.workspace)) {
            1nat
        } else {
            0nat
        })
    }
}

/// `order` is every window once, the most recently used first.
spec fn is_recency(s: State, order: Seq<usize>, n: int) -> bool {
    &&& order.len() == n
    &&& forall|k: int| 0 <= k < order.len() ==> #[trigger] order[k] < n
    &&& forall|i: usize| i < n ==> #[trigger] order.contains(i)
    &&& forall|k: int, l: int|
        0 <= k < l < order.len() ==> s.earlier(#[trigger] order[k] as int, #[trigger] order[l] as int)
}

fn rank_of(history: &Vec<WindowId>, id: WindowId) -> (r: usize)
    ensures
        r == rank(history@, id),
{
    let mut n: usize = history.len();
    assert(history@.take(n as int) =~= history@);
    while n > 0
        invariant
            n <= history.len(),
            rank(history@, id) == rank(history@.take(n as int), id),
        decreases n,
    {
        assert(history@.take(n as int).drop_last() =~= history@.take(n - 1));
        if history[n - 1].0 == id.0 {
            return n - 1;
        }
        n -= 1;
    }
    usize::MAX
}

fn by_recency(s: &State) -> (order: Vec<usize>)
    ensures
        is_recency(*s, order@, s.windows@.len() as int),
{
    let mut order: Vec<usize> = Vec::new();
    for i in 0..s.windows.len()
        invariant
            is_recency(*s, order@, i as int),
    {
        let ghost before = order@;
        let ri: usize = rank_of(&s.focus_history, s.windows[i].id);
        let mut at: usize = order.len();
        let mut settled = false;
        while at > 0 && !settled
            invariant
                i < s.windows.len(),
                at <= order.len(),
                order@ == before,
                is_recency(*s, before, i as int),
                ri == rank(s.focus_history@, s.windows@[i as int].id),
                forall|k: int|
                    at <= k < before.len() ==> s.earlier(i as int, #[trigger] before[k] as int),
                settled ==> at > 0 && s.earlier(before[at - 1] as int, i as int),
            decreases at + (if settled { 0int } else { 1int }),
        {
            assert(before[at - 1] < i);
            if rank_of(&s.focus_history, s.windows[order[at - 1]].id) <= ri {
                settled = true;
            } else {
                at -= 1;
            }
        }
        assert forall|k: int| 0 <= k < at implies s.earlier(
            #[trigger] before[k] as int,
            i as int,
        ) by {
            if k < at - 1 {
                assert(s.earlier(before[k] as int, before[at - 1] as int));
            }
        }
        order.insert(at, i);
        assert(order@ == before.insert(at as int, i));
        assert forall|x: usize| x < i + 1 implies #[trigger] order@.contains(x) by {
            if x < i {
                assert(before.contains(x));
                let k = choose|k: int| 0 <= k < before.len() && before[k] == x;
                let l = if k < at {
                    k
                } else {
                    k + 1
                };
                assert(order@[l] == x);
            } else {
                assert(order@[at as int] == x);
            }
        }
        assert forall|k: int, l: int| 0 <= k < l < order@.len() implies s.earlier(
            #[trigger] order@[k] as int,
            #[trigger] order@[l] as int,
        ) by {
            let k0 = if k < at {
                k
            } else {
                k - 1
            };
            let l0 = if l < at {
                l
            } else {
                l - 1
            };
            if k == at {
                assert(order@[l] == before[l0]);
            } else if l == at {
                assert(order@[k] == before[k0]);
            } else {
                assert(order@[k] == before[k0] && order@[l] == before[l0]);
                assert(k0 < l0);
            }
        }
    }
    order
}

fn apps_on(s: &State, order: &Vec<usize>, ws: WorkspaceId) -> (apps: Vec<Pid>)
    requires
        is_recency(*s, order@, s.windows@.len() as int),
    ensures
        s.lists_apps(ws, apps@),
{
    let mut apps: Vec<Pid> = Vec::new();
    // Where in the order each app's first window on the workspace stands.
    let ghost mut firsts: Seq<int> = Seq::empty();
    for k in 0..order.len()
        invariant
            is_recency(*s, order@, s.windows@.len() as int),
            firsts.len() == apps@.len(),
            forall|a: int|
                0 <= a < apps@.len() ==> 0 <= #[trigger] firsts[a] < k && s.shows(
                    ws,
                    apps@[a],
                    order@[firsts[a]] as int,
                ),
            forall|a: int, b: int| 0 <= a < b < firsts.len() ==> firsts[a] < firsts[b],
            forall|a: int, b: int| 0 <= a < b < apps@.len() ==> apps@[a] != apps@[b],
            forall|a: int, l: int|
                #![trigger apps@[a], order@[l]]
                0 <= a < apps@.len() && 0 <= l < firsts[a] ==> !s.shows(
                    ws,
                    apps@[a],
                    order@[l] as int,
                ),
            forall|l: int|
                0 <= l < k && s.windows@[#[trigger] order@[l] as int].workspace == ws
                    ==> apps@.contains(s.windows@[order@[l] as int].app),
    {
        let i: usize = order[k];
        assert(order@[k as int] < s.windows@.len());
        let w = s.windows[i];
        if w.workspace.0 == ws.0 {
            let mut seen = false;
            for a in 0..apps.len()
                invariant
                    seen <==> exists|b: int| 0 <= b < a && #[trigger] apps@[b] == w.app,
            {
                if apps[a].0 == w.app.0 {
                    assert(apps@[a as int] == w.app);
                    seen = true;
                }
            }
            let ghost before = apps@;
            let ghost was = firsts;
            if !seen {
                apps.push(w.app);
                proof {
                    firsts = firsts.push(k as int);
                }
                assert(apps@[before.len() as int] == w.app);
                assert forall|l: int| 0 <= l < k implies !s.shows(
                    ws,
                    w.app,
                    #[trigger] order@[l] as int,
                ) by {
                    if s.shows(ws, w.app, order@[l] as int) {
                        assert(before.contains(w.app));
                    }
                }
                assert forall|a: int, l: int|
                    #![trigger apps@[a], order@[l]]
                    0 <= a < apps@.len() && 0 <= l < firsts[a] implies !s.shows(
                    ws,
                    apps@[a],
                    order@[l] as int,
                ) by {
                    if a < before.len() {
                        assert(apps@[a] == before[a] && firsts[a] == was[a]);
                    }
                }
                assert forall|l: int|
                    0 <= l < k + 1 && s.windows@[#[trigger] order@[l] as int].workspace
                        == ws implies apps@.contains(s.windows@[order@[l] as int].app) by {
                    let app = s.windows@[order@[l] as int].app;
                    if l < k {
                        assert(before.contains(app));
                        let b = choose|b: int| 0 <= b < before.len() && before[b] == app;
                        assert(apps@[b] == app);
                    }
                }
            }
        }
    }
    proof {
        let list = apps@;
        assert forall|app: Pid| #![trigger list.contains(app)] list.contains(app) <==> exists|i: int|
            s.shows(ws, app, i) by {
            if list.contains(app) {
                let a = choose|a: int| 0 <= a < list.len() && list[a] == app;
                assert(s.shows(ws, app, order@[firsts[a]] as int));
            }
            if exists|i: int| s.shows(ws, app, i) {
                let i = choose|i: int| s.shows(ws, app, i);
                assert(order@.contains(i as usize));
                let l = choose|l: int| 0 <= l < order@.len() && order@[l] == i as usize;
                assert(s.windows@[order@[l] as int].workspace == ws);
            }
        }
        assert forall|a: int, b: int, i: int, j: int|
            #![trigger s.leads(ws, list[a], i), s.leads(ws, list[b], j)]
            0 <= a < b < list.len() && s.leads(ws, list[a], i) && s.leads(
                ws,
                list[b],
                j,
            ) implies s.earlier(i, j) by {
            lemma_first_leads(*s, order@, ws, list[a], firsts[a], i);
            lemma_first_leads(*s, order@, ws, list[b], firsts[b], j);
            assert(s.earlier(order@[firsts[a]] as int, order@[firsts[b]] as int));
        }
    }
    apps
}

proof fn lemma_first_leads(
    s: State,
    order: Seq<usize>,
    ws: WorkspaceId,
    app: Pid,
    first: int,
    i: int,
)
    requires
        is_recency(s, order, s.windows@.len() as int),
        0 <= first < order.len(),
        s.shows(ws, app, order[first] as int),
        forall|l: int| 0 <= l < first ==> !s.shows(ws, app, #[trigger] order[l] as int),
        s.leads(ws, app, i),
    ensures
        i == order[first],
{
    assert(s.shows(ws, app, i));
    assert(i < s.windows.len());
    assert(order.contains(i as usize));
    let l = choose|l: int| 0 <= l < order.len() && order[l] == i as usize;
    if l > first {
        assert(s.earlier(order[first] as int, order[l] as int));
        assert(s.shows(ws, app, order[first] as int));
    }
}

impl MenuBarView {
    pub fn of(s: &State) -> (r: MenuBarView)
        ensures
            r.workspaces@.len() == s.workspace_count,
            forall|n: int|
                0 <= n < s.workspace_count ==> (#[trigger] r.workspaces@[n]).id.0 == n + 1
                    && s.lists_apps(r.workspaces@[n].id, r.workspaces@[n].apps@),
            r.current == s.current,
            r.engaged == (s.mode == Mode::Active),
            r.monitors is Some <==> s.virtual_monitors is Some,
            r.monitors matches Some(m) ==> m.shows(*s, s.virtual_monitors->Some_0),
    {
        let order = by_recency(s);
        let mut workspaces: Vec<WorkspaceEntry> = Vec::new();
        let mut n: u8 = 0;
        while n < s.workspace_count
            invariant
                n <= s.workspace_count,
                is_recency(*s, order@, s.windows@.len() as int),
                workspaces@.len() == n,
                forall|m: int|
                    0 <= m < n ==> (#[trigger] workspaces@[m]).id.0 == m + 1 && s.lists_apps(
                        workspaces@[m].id,
                        workspaces@[m].apps@,
                    ),
            decreases s.workspace_count - n,
        {
            n += 1;
            let id = WorkspaceId(n);
            workspaces.push(WorkspaceEntry { id, apps: apps_on(s, &order, id) });
        }
        MenuBarView {
            workspaces,
            current: s.current,
            engaged: match s.mode {
                Mode::Active => true,
                Mode::Rescued => false,
            },
            monitors: MonitorsView::of(s),
        }
    }
}

impl MonitorsView {
    /// What the section on monitors shows. There is always at least one.
    pub open spec fn shows(&self, s: State, v: VirtualMonitors) -> bool {
        &&& self.displays@ == s.displays@
        &&& self.viewed == v.viewed
        &&& self.enabled == v.enabled
        &&& self.monitors@.len() == (if v.count == 0 {
            1
        } else {
            v.count as int
        })
        &&& forall|i: int|
            0 <= i < self.monitors@.len() ==> {
                let m = #[trigger] self.monitors@[i];
                &&& m.id.0 == i + 1
                &&& m.display == s.host(m.id)
                &&& m.all_windows == s.on_monitor(m.id, None)
                &&& m.windows == (if s.current is Some {
                    s.on_monitor(m.id, s.current)
                } else {
                    0
                })
            }
    }

    pub fn of(s: &State) -> (r: Option<MonitorsView>)
        ensures
            r is Some <==> s.virtual_monitors is Some,
            r matches Some(m) ==> m.shows(*s, s.virtual_monitors->Some_0),
            r matches Some(m) ==> m.displays@ == s.displays@ && m.viewed
                == s.virtual_monitors->Some_0.viewed && m.enabled
                == s.virtual_monitors->Some_0.enabled && m.monitors@.len() >= 1,
    {
        let v = match s.virtual_monitors {
            Some(v) => v,
            None => {
                return None;
            },
        };
        let count: u8 = if v.count == 0 {
            1
        } else {
            v.count
        };
        let mut monitors: Vec<MonitorEntry> = Vec::new();
        let mut n: u8 = 0;
        while n < count
            invariant
                n <= count,
                monitors@.len() == n,
                forall|i: int|
                    0 <= i < n ==> {
                        let m = #[trigger] monitors@[i];
                        &&& m.id.0 == i + 1
                        &&& m.display == s.host(m.id)
                        &&& m.all_windows == s.on_monitor(m.id, None)
                        &&& m.windows == (if s.current is Some {
                            s.on_monitor(m.id, s.current)
                        } else {
                            0
                        })
                    },
            decreases count - n,
        {
            n += 1;
            let id = VirtualMonitorId(n);
            let at: usize = n as usize;
            let display: Option<usize> = if at <= s.hosts.len() {
                s.hosts[at - 1]
            } else {
                None
            };
            let windows: usize = match s.current {
                Some(_) => windows_on(&s.windows, id, s.current),
                None => 0,
            };
            let all_windows: usize = windows_on(&s.windows, id, None);
            monitors.push(MonitorEntry { id, display, windows, all_windows });
        }
        let mut displays: Vec<MonitorId> = Vec::new();
        for i in 0..s.displays.len()
            invariant
                displays@ == s.displays@.take(i as int),
        {
            displays.push(s.displays[i]);
            assert(s.displays@.take(i + 1) =~= s.displays@.take(i as int).push(
                s.displays@[i as int],
            ));
        }
        assert(s.displays@.take(s.displays@.len() as int) =~= s.displays@);
        Some(MonitorsView { displays, monitors, viewed: v.viewed, enabled: v.enabled })
    }
}

fn windows_on(windows: &Vec<WindowRecord>, id: VirtualMonitorId, only: Option<WorkspaceId>) -> (r:
    usize)
    ensures
        r == count_on(windows@, id, only),
{
    let mut n: usize = 0;
    for i in 0..windows.len()
        invariant
            n == count_on(windows@.take(i as int), id, only),
            n <= i,
    {
        assert(windows@.take(i + 1).drop_last() =~= windows@.take(i as int));
        let w = windows[i];
        let counted = match only {
            Some(ws) => ws.0 == w.workspace.0,
            None => true,
        };
        if w.vmonitor.0 == id.0 && counted {
            n += 1;
        }
    }
    assert(windows@.take(windows@.len() as int) =~= windows@);
    n
}

/// The order of a workspace's apps leaves nothing open: two lists that both
/// fit are the same list.
pub proof fn law_apps_are_determined(s: State, ws: WorkspaceId, a: Seq<Pid>, b: Seq<Pid>)
    requires
        s.lists_apps(ws, a),
        s.lists_apps(ws, b),
    ensures
        a == b,
{
    lemma_same_length(a, b);
    lemma_same_length(b, a);
    assert forall|i: int| 0 <= i < a.len() implies a[i] == b[i] by {
        lemma_same_place(s, ws, a, b, i);
    }
    assert(a =~= b);
}

proof fn lemma_same_length(a: Seq<Pid>, b: Seq<Pid>)
    requires
        forall|i: int, j: int| 0 <= i < j < a.len() ==> a[i] != a[j],
        forall|p: Pid| #![trigger a.contains(p)] a.contains(p) ==> b.contains(p),
    ensures
        a.len() <= b.len(),
{
    a.unique_seq_to_set();
    vstd::seq_lib::seq_to_set_is_finite(a);
    vstd::seq_lib::seq_to_set_is_finite(b);
    assert(a.to_set().subset_of(b.to_set())) by {
        assert forall|p: Pid| a.to_set().contains(p) implies b.to_set().contains(p) by {
            assert(a.contains(p));
        }
    }
    vstd::set_lib::lemma_len_subset(a.to_set(), b.to_set());
    b.lemma_cardinality_of_set();
}

/// The window an app leads with on a workspace, if it shows any.
proof fn lemma_some_leads(s: State, ws: WorkspaceId, app: Pid, n: int) -> (i: int)
    requires
        0 <= n <= s.windows@.len(),
        exists|j: int| 0 <= j < n && s.shows(ws, app, j),
    ensures
        0 <= i < n,
        s.shows(ws, app, i),
        forall|j: int| 0 <= j < n && #[trigger] s.shows(ws, app, j) ==> j == i || s.earlier(i, j),
    decreases n,
{
    let last = n - 1;
    if exists|j: int| 0 <= j < last && s.shows(ws, app, j) {
        let i = lemma_some_leads(s, ws, app, last);
        if s.shows(ws, app, last) && s.earlier(last, i) {
            last
        } else {
            i
        }
    } else {
        last
    }
}

proof fn lemma_same_place(s: State, ws: WorkspaceId, a: Seq<Pid>, b: Seq<Pid>, i: int)
    requires
        s.lists_apps(ws, a),
        s.lists_apps(ws, b),
        a.len() == b.len(),
        0 <= i < a.len(),
    ensures
        a[i] == b[i],
    decreases i,
{
    assert forall|k: int| 0 <= k < i implies a[k] == b[k] by {
        lemma_same_place(s, ws, a, b, k);
    }
    if a[i] != b[i] {
        assert(a.contains(a[i]) && b.contains(b[i]));
        assert(b.contains(a[i]) && a.contains(b[i]));
        let bi = choose|k: int| 0 <= k < b.len() && b[k] == a[i];
        let ai = choose|k: int| 0 <= k < a.len() && a[k] == b[i];
        if bi < i {
            assert(a[bi] == b[bi]);
        }
        if ai < i {
            assert(a[ai] == b[ai]);
        }
        assert(bi > i && ai > i);
        let x = lemma_some_leads(s, ws, a[i], s.windows@.len() as int);
        let y = lemma_some_leads(s, ws, b[i], s.windows@.len() as int);
        assert(s.leads(ws, a[i], x) && s.leads(ws, a[ai], y));
        assert(s.leads(ws, b[i], y) && s.leads(ws, b[bi], x));
    }
}

/// Two views are the same exactly if everything they show is: the workspaces
/// with their apps in order, the current one, whether commands are heard, and
/// the monitors.
pub proof fn law_views_are_the_same_if_all_they_show_is(a: MenuBarView, b: MenuBarView)
    ensures
        a@ == b@ <==> {
            &&& a.current == b.current
            &&& a.engaged == b.engaged
            &&& a.workspaces@.len() == b.workspaces@.len()
            &&& forall|i: int|
                0 <= i < a.workspaces@.len() ==> (#[trigger] a.workspaces@[i]).id
                    == b.workspaces@[i].id && a.workspaces@[i].apps@ == b.workspaces@[i].apps@
            &&& a.monitors is Some <==> b.monitors is Some
            &&& a.monitors is Some ==> {
                let (m, n) = (a.monitors->Some_0, b.monitors->Some_0);
                &&& m.displays@ == n.displays@
                &&& m.monitors@ == n.monitors@
                &&& m.viewed == n.viewed
                &&& m.enabled == n.enabled
            }
        },
{
    let va = a.workspaces@.map_values(|e: WorkspaceEntry| e@);
    let vb = b.workspaces@.map_values(|e: WorkspaceEntry| e@);
    assert forall|i: int| 0 <= i < a.workspaces@.len() implies va[i]
        == #[trigger] a.workspaces@[i]@ by {}
    assert forall|i: int| 0 <= i < b.workspaces@.len() implies vb[i]
        == #[trigger] b.workspaces@[i]@ by {}
    if a@ == b@ {
        assert(va == vb);
        assert(va.len() == a.workspaces@.len() && vb.len() == b.workspaces@.len());
        assert forall|i: int| 0 <= i < a.workspaces@.len() implies (#[trigger] a.workspaces@[i]).id
            == b.workspaces@[i].id && a.workspaces@[i].apps@ == b.workspaces@[i].apps@ by {
            assert(va[i] == vb[i]);
            assert(vb[i] == b.workspaces@[i]@);
        }
    }
    if a.workspaces@.len() == b.workspaces@.len() && (forall|i: int|
        0 <= i < a.workspaces@.len() ==> (#[trigger] a.workspaces@[i]).id == b.workspaces@[i].id
            && a.workspaces@[i].apps@ == b.workspaces@[i].apps@) {
        assert forall|i: int| 0 <= i < va.len() implies va[i] == vb[i] by {
            assert(a.workspaces@[i].id == b.workspaces@[i].id);
            assert(vb[i] == b.workspaces@[i]@);
        }
        assert(va =~= vb);
    }
}

/// A window ranks by its last place in the history, and one that was never used
/// after every one that was.
pub proof fn law_history_ranks_the_windows(history: Seq<WindowId>, id: WindowId, k: int)
    requires
        0 <= k <= history.len() <= usize::MAX,
        k < history.len() ==> history[k] == id,
        forall|i: int| k < i < history.len() ==> history[i] != id,
        k == history.len() ==> !history.contains(id),
    ensures
        k < history.len() ==> rank(history, id) == k,
        k == history.len() ==> rank(history, id) >= history.len(),
    decreases history.len(),
{
    if history.len() > 0 {
        let init = history.drop_last();
        if k == history.len() {
            assert(history.contains(history.last()));
            assert forall|i: int| 0 <= i < init.len() implies init[i] != id by {
                assert(history.contains(history[i]));
            }
            law_history_ranks_the_windows(init, id, init.len() as int);
            lemma_unused_rank(history, id);
        } else if k < init.len() {
            assert(history[history.len() - 1] != id);
            law_history_ranks_the_windows(init, id, k);
        }
    }
}

proof fn lemma_unused_rank(history: Seq<WindowId>, id: WindowId)
    requires
        !history.contains(id),
    ensures
        rank(history, id) == usize::MAX,
    decreases history.len(),
{
    if history.len() > 0 {
        assert(history.contains(history.last()));
        assert forall|i: int| 0 <= i < history.drop_last().len() implies history.drop_last()[i]
            != id by {
            assert(history.contains(history[i]));
        }
        lemma_unused_rank(history.drop_last(), id);
    }
}

/// The app that is listed first is that of the window used last: the one on the
/// workspace that stands first in the history.
pub proof fn law_the_app_used_last_comes_first(
    s: State,
    ws: WorkspaceId,
    apps: Seq<Pid>,
    i: int,
    p: int,
)
    requires
        s.lists_apps(ws, apps),
        0 <= i < s.windows@.len(),
        s.windows@[i].workspace == ws,
        0 <= p < s.focus_history@.len(),
        s.focus_history@[p] == s.windows@[i].id,
        s.focus_history@.no_duplicates(),
        forall|j: int|
            0 <= j < s.windows@.len() && j != i && (#[trigger] s.windows@[j]).workspace == ws
                ==> s.windows@[j].id != s.windows@[i].id && !s.focus_history@.take(p).contains(
                s.windows@[j].id,
            ),
    ensures
        apps.len() > 0,
        apps[0] == s.windows@[i].app,
{
    let app = s.windows@[i].app;
    let history = s.focus_history@;
    assert(s.focus_history.len() == history.len());
    law_history_ranks_the_windows(history, s.windows@[i].id, p);
    assert(s.shows(ws, app, i));
    assert(apps.contains(app));
    assert forall|j: int|
        0 <= j < s.windows@.len() && j != i && (#[trigger] s.windows@[j]).workspace
            == ws implies s.earlier(i, j) by {
        let id = s.windows@[j].id;
        if history.contains(id) {
            let q = choose|q: int| 0 <= q < history.len() && history[q] == id;
            law_history_ranks_the_windows(history, id, q);
            if q < p {
                assert(history.take(p)[q] == id);
            }
        } else {
            lemma_unused_rank(history, id);
        }
    }
    assert(s.leads(ws, app, i)) by {
        assert forall|j: int| #[trigger] s.shows(ws, app, j) implies j == i || s.earlier(i, j) by {
            assert(s.windows@[j].workspace == ws);
        }
    }
    let a = choose|a: int| 0 <= a < apps.len() && apps[a] == app;
    if a > 0 {
        assert(apps.contains(apps[0]));
        let y = lemma_some_leads(s, ws, apps[0], s.windows@.len() as int);
        assert(s.leads(ws, apps[0], y) && s.leads(ws, apps[a], i));
        assert(s.earlier(y, i));
        assert(s.windows@[y].workspace == ws);
    }
}

/// Windows are counted on the monitor they are on: all of them, or those of one
/// workspace.
pub proof fn law_windows_are_counted_where_they_are(
    windows: Seq<WindowRecord>,
    id: VirtualMonitorId,
    ws: WorkspaceId,
)
    ensures
        count_on(windows, id, None) == windows.filter(|w: WindowRecord| w.vmonitor == id).len(),
        count_on(windows, id, Some(ws)) == windows.filter(
            |w: WindowRecord| w.vmonitor == id && w.workspace == ws,
        ).len(),
    decreases windows.len(),
{
    reveal(Seq::filter);
    if windows.len() > 0 {
        law_windows_are_counted_where_they_are(windows.drop_last(), id, ws);
    }
}

/// Every virtual monitor is shown in its place, with the display that shows it
/// and its own windows: in all, and of the current workspace.
pub proof fn law_monitors_are_shown_in_their_place(
    m: MonitorsView,
    s: State,
    v: VirtualMonitors,
    i: int,
)
    requires
        m.shows(s, v),
        0 <= i < m.monitors@.len(),
    ensures
        m.monitors@.len() == (if v.count == 0 {
            1
        } else {
            v.count as int
        }),
        m.displays@ == s.displays@,
        m.viewed == v.viewed,
        m.enabled == v.enabled,
        ({
            let e = m.monitors@[i];
            &&& e.id.0 == i + 1
            &&& i < s.hosts@.len() ==> e.display == s.hosts@[i]
            &&& i >= s.hosts@.len() ==> e.display is None
            &&& e.all_windows == s.windows@.filter(
                |w: WindowRecord| w.vmonitor.0 == i + 1,
            ).len()
            &&& s.current matches Some(ws) ==> e.windows == s.windows@.filter(
                |w: WindowRecord| w.vmonitor.0 == i + 1 && w.workspace == ws,
            ).len()
            &&& s.current is None ==> e.windows == 0
        }),
{
    let e = m.monitors@[i];
    assert(e.id.0 == i + 1);
    let id = e.id;
    let all = |w: WindowRecord| w.vmonitor == id;
    assert(all =~= (|w: WindowRecord| w.vmonitor.0 == i + 1));
    if let Some(ws) = s.current {
        law_windows_are_counted_where_they_are(s.windows@, id, ws);
        let here = |w: WindowRecord| w.vmonitor == id && w.workspace == ws;
        assert(here =~= (|w: WindowRecord| w.vmonitor.0 == i + 1 && w.workspace == ws));
    } else {
        law_windows_are_counted_where_they_are(s.windows@, id, WorkspaceId(1));
    }
}

/// Apps are listed by their last use: for every window of an app that was used,
/// each app listed before it has a window on the workspace that was used later.
pub proof fn law_apps_are_listed_by_their_last_use(
    s: State,
    ws: WorkspaceId,
    apps: Seq<Pid>,
    a: int,
    b: int,
    j: int,
    q: int,
)
    requires
        s.lists_apps(ws, apps),
        0 <= a < b < apps.len(),
        0 <= j < s.windows@.len(),
        s.windows@[j].workspace == ws,
        s.windows@[j].app == apps[b],
        0 <= q < s.focus_history@.len(),
        s.focus_history@[q] == s.windows@[j].id,
        s.focus_history@.no_duplicates(),
        forall|x: int, y: int|
            0 <= x < y < s.windows@.len() ==> (#[trigger] s.windows@[x]).id != (
            #[trigger] s.windows@[y]).id,
    ensures
        exists|i: int, p: int|
            0 <= i < s.windows@.len() && s.windows@[i].workspace == ws && s.windows@[i].app
                == apps[a] && 0 <= p < q && (#[trigger] s.focus_history@[p]) == (
            #[trigger] s.windows@[i]).id,
{
    let history = s.focus_history@;
    assert(s.focus_history.len() == history.len());
    law_history_ranks_the_windows(history, s.windows@[j].id, q);
    assert(s.shows(ws, apps[b], j));
    assert(apps.contains(apps[a]));
    let y = lemma_some_leads(s, ws, apps[a], s.windows@.len() as int);
    let x = lemma_some_leads(s, ws, apps[b], s.windows@.len() as int);
    assert(s.leads(ws, apps[a], y) && s.leads(ws, apps[b], x));
    assert(s.earlier(y, x));
    assert(x == j || s.earlier(x, j));
    let id = s.windows@[y].id;
    let p = rank(history, id);
    assert(p <= q);
    if !history.contains(id) {
        lemma_unused_rank(history, id);
    }
    let k = choose|k: int| 0 <= k < history.len() && history[k] == id;
    law_history_ranks_the_windows(history, id, k);
    if y < j {
        assert(s.windows@[y].id != s.windows@[j].id);
    } else {
        assert(s.windows@[j].id != s.windows@[y].id);
    }
    assert(history[k] == s.windows@[y].id);
}

} // verus!
