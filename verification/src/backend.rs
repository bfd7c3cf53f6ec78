//! The workspace backend boundary: what the workspaces are right now, and the
//! changes that can be asked for.
//!
//! Two mechanisms stand behind it. Under the native one the system owns the
//! truth and it is read; under the emulated one the daemon owns it and it is
//! reported. Only ordinals cross this boundary, never a native space number.

use crate::menubar::VirtualMonitors;
use crate::text::owned;
use crate::vocab::{MonitorId, Pid, Rect, VirtualMonitorId, WindowId, WorkspaceId};
use std::collections::HashMap;
use vstd::prelude::*;

verus! {

/// Why a backend could not do what it was asked.
#[derive(Debug)]
pub struct BackendError(pub String);

impl BackendError {
    /// The reason, for people.
    pub fn text(&self) -> (r: &str)
        ensures
            r@ == self.0@,
    {
        self.0.as_str()
    }
}

/// What a backend knows of the workspaces.
#[derive(Clone, Debug, PartialEq)]
pub struct BackendTopology {
    /// Per monitor, the workspace it shows and how many it offers.
    pub monitors: Vec<MonitorWorkspace>,
    /// Every managed window's workspace, by the window's number.
    pub window_ws: HashMap<u32, WorkspaceId>,
    /// The virtual monitors and each window's, by the window's number. `None`
    /// is the statement that the backend has none.
    pub virtual_monitors: Option<(VirtualMonitors, HashMap<u32, VirtualMonitorId>)>,
}

/// A backend that knows nothing, and has no virtual layer.
impl Default for BackendTopology {
    fn default() -> (r: BackendTopology)
        ensures
            r.monitors@.len() == 0,
            r.window_ws@ == Map::<u32, WorkspaceId>::empty(),
            r.virtual_monitors is None,
    {
        BackendTopology {
            monitors: Vec::new(),
            window_ws: HashMap::new(),
            virtual_monitors: None,
        }
    }
}

#[derive(Clone, Copy, Debug, PartialEq, Eq, Structural)]
pub struct MonitorWorkspace {
    pub monitor: MonitorId,
    pub active: WorkspaceId,
    pub count: u8,
}

#[derive(Clone, Copy, Debug, PartialEq, Eq, Structural)]
pub struct Capabilities {
    /// Workspaces cannot be created or destroyed from here.
    pub fixed_workspace_count: bool,
    pub max_workspaces: u8,
}

/// What a backend with no virtual layer answers.
pub fn no_virtual_monitors() -> (r: BackendError)
    ensures
        r.0@ == "this backend has no virtual monitors"@,
{
    BackendError(owned("this backend has no virtual monitors"))
}

/// Put a window and a workspace to a request that a backend answers. What comes
/// of it is whatever the request says may come of it.
fn put_to<B, R, F: FnOnce(B, WindowId, WorkspaceId) -> R>(
    request: F,
    asked: (B, WindowId, WorkspaceId),
) -> (r: R)
    requires
        request.requires(asked),
    ensures
        request.ensures(asked, r),
{
    let (backend, window, target) = asked;
    request(backend, window, target)
}

/// A workspace mechanism. What every one must answer has no default; the
/// defaults are those of a mechanism that keeps no model of its own and makes
/// no promises about where windows are.
pub trait WorkspaceBackend {
    /// What the workspaces are, given the windows and displays just observed.
    fn topology(
        &mut self,
        windows: &Vec<(WindowId, Pid)>,
        monitors: &Vec<(MonitorId, Rect, bool)>,
    ) -> Result<BackendTopology, BackendError>;

    /// Bring every display to its `target`th workspace.
    fn switch_workspace(&mut self, target: WorkspaceId) -> Result<(), BackendError>;

    /// Move one window to a workspace, with whatever visible change it implies.
    fn move_window_to_workspace(&mut self, window: WindowId, target: WorkspaceId) -> Result<
        (),
        BackendError,
    >;

    /// Change a window's workspace without touching its frame. Unless a
    /// mechanism tells the two apart, that is to move the window.
    fn assign_window_to_workspace(&mut self, window: WindowId, target: WorkspaceId) -> (r: Result<
        (),
        BackendError,
    >)
        default_ensures
            call_ensures(Self::move_window_to_workspace, (self, window, target), r),
    {
        let asked = (self, window, target);
        put_to(Self::move_window_to_workspace, asked)
    }

    /// Make `target` the monitor that stepping starts from.
    fn view_monitor(&mut self, _target: VirtualMonitorId) -> (r: Result<(), BackendError>)
        default_ensures
            r matches Err(e) && e.0@ == "this backend has no virtual monitors"@,
    {
        Err(no_virtual_monitors())
    }

    fn set_virtual_monitors(&mut self, _enabled: bool) -> (r: Result<(), BackendError>)
        default_ensures
            r matches Err(e) && e.0@ == "this backend has no virtual monitors"@,
    {
        Err(no_virtual_monitors())
    }

    /// Change a window's monitor without touching its frame.
    fn assign_window_to_monitor(&mut self, _window: WindowId, _target: VirtualMonitorId) -> (r:
        Result<(), BackendError>)
        default_ensures
            r matches Err(e) && e.0@ == "this backend has no virtual monitors"@,
    {
        Err(no_virtual_monitors())
    }

    fn merge_monitors(&mut self, _from: VirtualMonitorId, _into: VirtualMonitorId) -> (r: Result<
        (),
        BackendError,
    >)
        default_ensures
            r matches Err(e) && e.0@ == "this backend has no virtual monitors"@,
    {
        Err(no_virtual_monitors())
    }

    fn add_monitor(&mut self) -> (r: Result<(), BackendError>)
        default_ensures
            r matches Err(e) && e.0@ == "this backend has no virtual monitors"@,
    {
        Err(no_virtual_monitors())
    }

    /// Make one window visible on the workspace shown, for the kill switch.
    fn rescue_window(&mut self, window: WindowId) -> Result<(), BackendError>;

    /// Come alive: with the saved model, or with a blank one that is neither
    /// read nor written until it is saved.
    fn bring_up(&mut self, _use_state: bool) {
    }

    /// Make the current model the saved one, and keep it saved.
    fn resume_persistence(&mut self) {
    }

    /// Put windows back where this backend says they are, given where they were
    /// seen, by their numbers. Only asked for while the daemon is engaged.
    fn enforce_placement(&mut self, _frames: &HashMap<u32, (Pid, Rect)>) {
    }

    /// The frames this backend knows better than the screen shows them, by the
    /// windows' numbers.
    fn believed_frames(&self, _frames: &HashMap<u32, (Pid, Rect)>) -> (r: HashMap<u32, Rect>)
        default_ensures
            r@ == Map::<u32, Rect>::empty(),
    {
        HashMap::new()
    }

    /// Drain the backend's record of what it did to frames, each as the window,
    /// a word for what happened and the details. It reaches the log by no other
    /// way.
    fn take_park_trace(&mut self) -> (r: Vec<(WindowId, String, String)>)
        default_ensures
            r@.len() == 0,
    {
        Vec::new()
    }

    fn capabilities(&self) -> Capabilities;
}

} // verus!
