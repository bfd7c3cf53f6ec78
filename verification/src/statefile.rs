//! The emulated workspaces across restarts.
//!
//! Which workspace each window belongs to, and the frame a parked window comes
//! back to, exist nowhere on screen. What is written down is a claim, not
//! truth: after a reboot every window number in it means something else, so the
//! time the machine booted is its seal.

use crate::vocab::{Rect, WindowId, WorkspaceId};
use vstd::prelude::*;

verus! {

pub const VERSION: u32 = 1;

#[derive(Clone, Debug, PartialEq, Eq)]
pub struct PersistedState {
    pub version: u32,
    /// When the machine had booted at the time of writing.
    pub boot_time_sec: i64,
    pub current: WorkspaceId,
    pub windows: Vec<PersistedWindow>,
}

#[derive(Clone, Copy, Debug, PartialEq, Eq, Structural)]
pub struct PersistedWindow {
    pub id: WindowId,
    pub workspace: WorkspaceId,
    /// The frame a parked window comes back to. `None` where it is not parked,
    /// or where its frame was never seen for certain.
    pub saved: Option<Rect>,
}

/// A claim holds: it is of this version and from this boot, and when the
/// machine booted is known at all.
pub open spec fn is_valid(state: PersistedState, boot_time: i64) -> bool {
    state.version == VERSION && state.boot_time_sec == boot_time && boot_time != 0
}

/// Judge what was read back. `None` means to start empty.
pub fn load(state: PersistedState, boot_time: i64) -> (r: Option<PersistedState>)
    ensures
        r == (if is_valid(state, boot_time) {
            Some(state)
        } else {
            None
        }),
        r is Some <==> state.version == 1 && state.boot_time_sec == boot_time && boot_time != 0,
        r matches Some(kept) ==> kept == state,
{
    if state.version != VERSION || state.boot_time_sec != boot_time || boot_time == 0 {
        return None;
    }
    Some(state)
}

/// When the machine booted, from what the kernel answered. 0 where it did not:
/// no claim is ever valid then, which fails safe.
pub fn boot_time_sec(rc: i32, tv_sec: i64) -> (r: i64)
    ensures
        r == (if rc == 0 {
            tv_sec
        } else {
            0
        }),
{
    if rc == 0 {
        tv_sec
    } else {
        0
    }
}

/// What is written under one boot is read back under it, and under no other.
pub proof fn law_claims_last_one_boot(state: PersistedState, boot_time: i64)
    requires
        state.version == VERSION,
        state.boot_time_sec != 0,
    ensures
        is_valid(state, boot_time) <==> boot_time == state.boot_time_sec,
{
}

/// A claim of another version is never valid, nor any while it is not known when
/// the machine booted.
pub proof fn law_doubtful_claims_are_dropped(state: PersistedState, boot_time: i64)
    ensures
        state.version != 1 ==> !is_valid(state, boot_time),
        !is_valid(state, 0),
        is_valid(state, boot_time) ==> state.boot_time_sec == boot_time,
{
}

} // verus!
