//! The emulated workspace backend, as far as it is not the emulation itself:
//! what it is told of the desktop and what it reports.

use crate::backend::{BackendError, BackendTopology, Capabilities, MonitorWorkspace};
use crate::menubar::VirtualMonitors;
use crate::text::{around_number, decimal, owned, push_decimal, push_signed, signed};
use crate::vocab::{MonitorId, Pid, VirtualMonitorId, WindowId, WorkspaceId};
use std::collections::HashMap;
use vstd::prelude::*;

verus! {

/// The workspaces, as the ledger has them: every display shows the same one.
pub fn topology(
    displays: &Vec<MonitorId>,
    current: WorkspaceId,
    count: u8,
    window_ws: HashMap<u32, WorkspaceId>,
    virtual_monitors: (VirtualMonitors, HashMap<u32, VirtualMonitorId>),
) -> (r: BackendTopology)
    ensures
        r.monitors@ == displays@.map_values(
            |id: MonitorId| (MonitorWorkspace { monitor: id, active: current, count }),
        ),
        r.window_ws == window_ws,
        r.virtual_monitors == Some(virtual_monitors),
{
    let mut monitors: Vec<MonitorWorkspace> = Vec::new();
    let ghost entry = |id: MonitorId| (MonitorWorkspace { monitor: id, active: current, count });
    for i in 0..displays.len()
        invariant
            entry == (|id: MonitorId| (MonitorWorkspace { monitor: id, active: current, count })),
            monitors@ == displays@.take(i as int).map_values(entry),
    {
        monitors.push(MonitorWorkspace { monitor: displays[i], active: current, count });
        assert(displays@.take(i + 1).map_values(entry) =~= displays@.take(i as int).map_values(
            entry,
        ).push(entry(displays@[i as int])));
    }
    assert(displays@.take(displays@.len() as int) =~= displays@);
    BackendTopology { monitors, window_ws, virtual_monitors: Some(virtual_monitors) }
}

/// Why a workspace was refused.
pub fn out_of_range(target: WorkspaceId) -> (r: BackendError)
    ensures
        r.0@ == "workspace "@ + decimal(target.0 as nat) + " out of range"@,
{
    BackendError(around_number("workspace ", target.0 as u64, " out of range"))
}

/// Workspaces are the daemon's own, so there are as many as it likes.
pub fn capabilities(count: u8) -> (r: Capabilities)
    ensures
        r == (Capabilities { fixed_workspace_count: false, max_workspaces: count }),
{
    Capabilities { fixed_workspace_count: false, max_workspaces: count }
}

/// Those of the windows that exist.
pub open spec fn among(ids: Seq<WindowId>, all: Seq<WindowId>) -> Seq<WindowId>
    decreases ids.len(),
{
    if ids.len() == 0 {
        Seq::empty()
    } else if all.contains(ids.last()) {
        among(ids.drop_last(), all).push(ids.last())
    } else {
        among(ids.drop_last(), all)
    }
}

/// Those of the windows that exist, given all that do.
pub fn existing_windows(ids: &Vec<WindowId>, all: &Vec<WindowId>) -> (r: Vec<WindowId>)
    ensures
        r@ == among(ids@, all@),
{
    let mut out: Vec<WindowId> = Vec::new();
    for i in 0..ids.len()
        invariant
            out@ == among(ids@.take(i as int), all@),
    {
        assert(ids@.take(i + 1).drop_last() =~= ids@.take(i as int));
        let mut exists_ = false;
        for j in 0..all.len()
            invariant
                i < ids@.len(),
                exists_ <==> exists|k: int| 0 <= k < j && #[trigger] all@[k] == ids@[i as int],
        {
            if all[j].0 == ids[i].0 {
                assert(all@[j as int] == ids@[i as int]);
                exists_ = true;
            }
        }
        if exists_ {
            out.push(ids[i]);
        }
    }
    assert(ids@.take(ids@.len() as int) =~= ids@);
    out
}

/// How many windows an app's un-hide was to hold: the first entry for the app
/// counts.
pub open spec fn held_for(holds: Seq<(Pid, usize)>, pid: Pid) -> usize
    decreases holds.len(),
{
    if holds.len() == 0 {
        0
    } else if holds[0].0 == pid {
        holds[0].1
    } else {
        held_for(holds.skip(1), pid)
    }
}

/// How many windows an app's un-hide was to hold.
pub fn held_by(holds: &Vec<(Pid, usize)>, pid: Pid) -> (r: usize)
    ensures
        r == held_for(holds@, pid),
{
    let mut i: usize = 0;
    assert(holds@.skip(0) =~= holds@);
    while i < holds.len()
        invariant
            i <= holds.len(),
            held_for(holds@, pid) == held_for(holds@.skip(i as int), pid),
        decreases holds.len() - i,
    {
        assert(holds@.skip(i as int).skip(1) =~= holds@.skip(i + 1));
        if holds[i].0.0 == pid.0 {
            return holds[i].1;
        }
        i += 1;
    }
    0
}

/// What is said of an un-hide that let windows get away; nothing of one that
/// did not.
pub fn escape_notice(pid: Pid, escaped: usize, elapsed_ms: u64) -> (r: Option<String>)
    ensures
        r is Some <==> escaped > 0,
        r matches Some(text) ==> text@ == "ordo: un-hiding pid "@ + signed(pid.0 as int)
            + " left "@ + decimal(escaped as nat) + " window(s) off the corner after "@ + decimal(
            elapsed_ms as nat,
        ) + "ms"@,
{
    if escaped == 0 {
        return None;
    }
    let mut text = owned("ordo: un-hiding pid ");
    push_signed(&mut text, pid.0 as i64);
    text.append(" left ");
    push_decimal(&mut text, escaped as u64);
    text.append(" window(s) off the corner after ");
    push_decimal(&mut text, elapsed_ms);
    text.append("ms");
    Some(text)
}

/// Of the windows asked about those come back that exist, in the order asked.
pub proof fn law_only_existing_windows_come_back(ids: Seq<WindowId>, all: Seq<WindowId>)
    ensures
        among(ids, all) == ids.filter(|w: WindowId| all.contains(w)),
    decreases ids.len(),
{
    reveal(Seq::filter);
    if ids.len() > 0 {
        law_only_existing_windows_come_back(ids.drop_last(), all);
    }
}

/// An app's first entry counts, and an app without one was to hold nothing.
pub proof fn law_the_first_hold_counts(holds: Seq<(Pid, usize)>, pid: Pid, k: int)
    requires
        0 <= k <= holds.len(),
        forall|i: int| 0 <= i < k ==> (#[trigger] holds[i]).0 != pid,
        k < holds.len() ==> holds[k].0 == pid,
    ensures
        k < holds.len() ==> held_for(holds, pid) == holds[k].1,
        k == holds.len() ==> held_for(holds, pid) == 0,
    decreases k,
{
    if k > 0 {
        assert(holds[0].0 != pid);
        law_the_first_hold_counts(holds.skip(1), pid, k - 1);
    }
}

} // verus!
