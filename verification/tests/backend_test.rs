//! What a workspace mechanism answers when it says nothing of its own.

use std::collections::HashMap;

use ordo::backend::{BackendError, BackendTopology, Capabilities, WorkspaceBackend};
use ordo::platform::world::place;
use ordo::vocab::{MonitorId, Pid, Rect, VirtualMonitorId, WindowId, WorkspaceId};

/// A mechanism with three workspaces and no others.
struct Plain {
    moved: Vec<(WindowId, WorkspaceId)>,
    placed: usize,
}

impl Plain {
    fn new() -> Plain {
        Plain { moved: Vec::new(), placed: 0 }
    }
}

impl WorkspaceBackend for Plain {
    fn topology(
        &mut self,
        _windows: &Vec<(WindowId, Pid)>,
        _monitors: &Vec<(MonitorId, Rect, bool)>,
    ) -> Result<BackendTopology, BackendError> {
        Err(BackendError("not asked for".to_string()))
    }

    fn switch_workspace(&mut self, _target: WorkspaceId) -> Result<(), BackendError> {
        Ok(())
    }

    fn move_window_to_workspace(
        &mut self,
        window: WindowId,
        target: WorkspaceId,
    ) -> Result<(), BackendError> {
        if target.0 > 3 {
            return Err(BackendError("no such workspace".to_string()));
        }
        self.moved.push((window, target));
        Ok(())
    }

    fn rescue_window(&mut self, _window: WindowId) -> Result<(), BackendError> {
        Ok(())
    }

    fn enforce_placement(&mut self, frames: &HashMap<u32, (Pid, Rect)>) {
        self.placed += frames.len();
    }

    fn capabilities(&self) -> Capabilities {
        Capabilities { fixed_workspace_count: true, max_workspaces: 3 }
    }
}

#[test]
fn assigning_a_workspace_is_moving_unless_told_apart() {
    let mut plain = Plain::new();
    assert!(plain.assign_window_to_workspace(WindowId(7), WorkspaceId(2)).is_ok());
    let refused = plain.assign_window_to_workspace(WindowId(8), WorkspaceId(4));
    assert_eq!(refused.unwrap_err().text(), "no such workspace");
    assert_eq!(plain.moved, vec![(WindowId(7), WorkspaceId(2))]);
}

#[test]
fn a_plain_mechanism_has_no_virtual_layer_and_no_model() {
    let mut backend: Box<dyn WorkspaceBackend> = Box::new(Plain::new());
    let none = "this backend has no virtual monitors";
    assert_eq!(backend.view_monitor(VirtualMonitorId(1)).unwrap_err().text(), none);
    assert_eq!(backend.set_virtual_monitors(true).unwrap_err().text(), none);
    let assigned = backend.assign_window_to_monitor(WindowId(1), VirtualMonitorId(1));
    assert_eq!(assigned.unwrap_err().text(), none);
    let merged = backend.merge_monitors(VirtualMonitorId(1), VirtualMonitorId(2));
    assert_eq!(merged.unwrap_err().text(), none);
    assert_eq!(backend.add_monitor().unwrap_err().text(), none);
    assert!(backend.believed_frames(&HashMap::new()).is_empty());
    assert!(backend.take_park_trace().is_empty());
}

#[test]
fn a_blank_topology_knows_nothing() {
    let blank = BackendTopology::default();
    assert!(blank.monitors.is_empty() && blank.window_ws.is_empty());
    assert!(blank.virtual_monitors.is_none());
    let mut told = blank.clone();
    assert_eq!(told, blank);
    told.window_ws.insert(7, WorkspaceId(2));
    assert_ne!(told, blank);
    assert_eq!(told.clone(), told);
}

#[test]
fn windows_are_put_back_only_while_engaged() {
    let mut plain = Plain::new();
    let rect = Rect { x: 0, y: 0, w: 0, h: 0 };
    let frames = HashMap::from([(1, (Pid(5), rect)), (2, (Pid(5), rect))]);
    place(&mut plain, &frames, false);
    assert_eq!(plain.placed, 0);
    place(&mut plain, &frames, true);
    assert_eq!(plain.placed, 2);
}
