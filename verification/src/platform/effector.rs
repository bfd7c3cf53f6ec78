//! Carrying out effects: what each one asks of the desktop, and what its result
//! comes to.

use crate::backend::BackendError;
use crate::text::owned;
use crate::vocab::{
    Effect, OpOutcome, Point, Rect, VirtualMonitorId, WindowId, WorkspaceId,
};
use vstd::prelude::*;

verus! {

/// What an effect asks to be done.
#[derive(Debug)]
pub enum Act {
    /// Focus a window; whether it was found goes to [`found_outcome`] with
    /// [`FOCUS_NOT_FOUND`].
    Focus(WindowId),
    /// Write a window's frame; whether it was found goes to [`found_outcome`]
    /// with [`FRAME_NOT_FOUND`].
    SetFrame(WindowId, Rect),
    /// Give the focus to no window; whether that could be done goes to
    /// [`found_outcome`] with [`DESKTOP_NOT_FOUND`].
    FocusDesktop,
    // The backend does these, and its result goes to `result_outcome`.
    SwitchWorkspace(WorkspaceId),
    MoveWindow(WindowId, WorkspaceId),
    AssignWorkspace(WindowId, WorkspaceId),
    AssignMonitor(WindowId, VirtualMonitorId),
    ViewMonitor(VirtualMonitorId),
    SetVirtualMonitors(bool),
    MergeMonitors(VirtualMonitorId, VirtualMonitorId),
    AddMonitor,
    // These have nothing to report.
    Warp(Point),
    Restack(Vec<WindowId>),
    SetIntercepting(bool),
    /// The engine does it itself.
    Nothing,
}

pub const FOCUS_NOT_FOUND: &'static str = "focus: window not found";

pub const FRAME_NOT_FOUND: &'static str = "set_frame: window not found";

pub const DESKTOP_NOT_FOUND: &'static str = "focus: desktop not found";

/// `act` is what the effect asks to be done.
pub open spec fn asks(effect: Effect, act: Act) -> bool {
    match effect {
        Effect::FocusWindow { window, .. } => act == Act::Focus(window),
        Effect::SetWindowFrame { window, frame, .. } => act == Act::SetFrame(window, frame),
        Effect::FocusDesktop { .. } => act == Act::FocusDesktop,
        Effect::SwitchWorkspace { target, .. } => act == Act::SwitchWorkspace(target),
        Effect::MoveWindowToWorkspace { window, target, .. } => act == Act::MoveWindow(
            window,
            target,
        ),
        Effect::AssignWindowToWorkspace { window, target, .. } => act == Act::AssignWorkspace(
            window,
            target,
        ),
        Effect::AssignWindowToMonitor { window, target, .. } => act == Act::AssignMonitor(
            window,
            target,
        ),
        Effect::ViewMonitor { target, .. } => act == Act::ViewMonitor(target),
        Effect::SetVirtualMonitors { enabled, .. } => act == Act::SetVirtualMonitors(enabled),
        Effect::MergeMonitors { from, into, .. } => act == Act::MergeMonitors(from, into),
        Effect::AddMonitor { .. } => act == Act::AddMonitor,
        Effect::WarpMouse { to } => act == Act::Warp(to),
        Effect::RestackWindows { order } => act matches Act::Restack(copy) && copy@ == order@,
        Effect::SetIntercepting { enabled } => act == Act::SetIntercepting(enabled),
        Effect::RequestRescan { .. } => act == Act::Nothing,
    }
}

/// Whether doing it has a result to report.
pub open spec fn reports(act: Act) -> bool {
    !(act is Warp || act is Restack || act is SetIntercepting || act is Nothing)
}

/// What an effect asks to be done.
pub fn execute(effect: &Effect) -> (r: Act)
    ensures
        asks(*effect, r),
        *effect is FocusWindow ==> r is Focus && r->Focus_0 == effect->FocusWindow_window,
        *effect is SetWindowFrame ==> r is SetFrame && r->SetFrame_0 == effect->SetWindowFrame_window && r->SetFrame_1 == effect->SetWindowFrame_frame,
        *effect is SwitchWorkspace ==> r is SwitchWorkspace && r->SwitchWorkspace_0 == effect->SwitchWorkspace_target,
        *effect is MoveWindowToWorkspace ==> r is MoveWindow && r->MoveWindow_0 == effect->MoveWindowToWorkspace_window && r->MoveWindow_1 == effect->MoveWindowToWorkspace_target,
        *effect is AssignWindowToWorkspace ==> r is AssignWorkspace && r->AssignWorkspace_0 == effect->AssignWindowToWorkspace_window && r->AssignWorkspace_1 == effect->AssignWindowToWorkspace_target,
        *effect is AssignWindowToMonitor ==> r is AssignMonitor && r->AssignMonitor_0 == effect->AssignWindowToMonitor_window && r->AssignMonitor_1 == effect->AssignWindowToMonitor_target,
        *effect is ViewMonitor ==> r is ViewMonitor && r->ViewMonitor_0 == effect->ViewMonitor_target,
        *effect is SetVirtualMonitors ==> r is SetVirtualMonitors && r->SetVirtualMonitors_0 == effect->SetVirtualMonitors_enabled,
        *effect is MergeMonitors ==> r is MergeMonitors && r->MergeMonitors_0 == effect->MergeMonitors_from && r->MergeMonitors_1 == effect->MergeMonitors_into,
        *effect is AddMonitor ==> r is AddMonitor,
        *effect is WarpMouse ==> r is Warp && r->Warp_0 == effect->WarpMouse_to,
        *effect is SetIntercepting ==> r is SetIntercepting && r->SetIntercepting_0 == effect->SetIntercepting_enabled,
        *effect is FocusDesktop ==> r is FocusDesktop,
        *effect is RequestRescan ==> r is Nothing,
        *effect is RestackWindows ==> r is Restack && r->Restack_0@ == effect->RestackWindows_order@,
{
    match effect {
        Effect::FocusWindow { window, .. } => Act::Focus(*window),
        Effect::SetWindowFrame { window, frame, .. } => Act::SetFrame(*window, *frame),
        Effect::FocusDesktop { .. } => Act::FocusDesktop,
        Effect::SwitchWorkspace { target, .. } => Act::SwitchWorkspace(*target),
        Effect::MoveWindowToWorkspace { window, target, .. } => Act::MoveWindow(*window, *target),
        Effect::AssignWindowToWorkspace { window, target, .. } => Act::AssignWorkspace(
            *window,
            *target,
        ),
        Effect::AssignWindowToMonitor { window, target, .. } => Act::AssignMonitor(
            *window,
            *target,
        ),
        Effect::ViewMonitor { target, .. } => Act::ViewMonitor(*target),
        Effect::SetVirtualMonitors { enabled, .. } => Act::SetVirtualMonitors(*enabled),
        Effect::MergeMonitors { from, into, .. } => Act::MergeMonitors(*from, *into),
        Effect::AddMonitor { .. } => Act::AddMonitor,
        Effect::WarpMouse { to } => Act::Warp(*to),
        Effect::RestackWindows { order } => {
            let mut copy: Vec<WindowId> = Vec::new();
            for i in 0..order.len()
                invariant
                    copy@ == order@.take(i as int),
            {
                copy.push(order[i]);
                assert(order@.take(i + 1) =~= order@.take(i as int).push(order@[i as int]));
            }
            assert(order@.take(order@.len() as int) =~= order@);
            Act::Restack(copy)
        },
        Effect::SetIntercepting { enabled } => Act::SetIntercepting(*enabled),
        Effect::RequestRescan { .. } => Act::Nothing,
    }
}

/// What looking for a window comes to.
pub fn found_outcome(found: bool, not_found: &str) -> (r: OpOutcome)
    ensures
        found ==> r is Done,
        !found ==> (r matches OpOutcome::Failed { detail } && detail@ == not_found@),
{
    if found {
        OpOutcome::Done
    } else {
        OpOutcome::Failed { detail: owned(not_found) }
    }
}

/// What a backend's answer comes to.
pub fn result_outcome(result: Result<(), BackendError>) -> (r: OpOutcome)
    ensures
        match result {
            Ok(()) => r is Done,
            Err(e) => r == (OpOutcome::Failed { detail: e.0 }),
        },
{
    match result {
        Ok(()) => OpOutcome::Done,
        Err(e) => OpOutcome::Failed { detail: e.0 },
    }
}

/// An effect has a result to report exactly when it was issued under an
/// operation, so no result is ever lost for want of one, and no operation is
/// left without.
pub proof fn law_results_match_operations(effect: Effect, act: Act)
    requires
        asks(effect, act),
    ensures
        reports(act) <==> crate::logger::op_of(effect) is Some,
{
}

/// What is done is what was asked for, and to what it was asked for: every part of
/// an act is the effect's own field of that meaning.
pub proof fn law_acts_carry_what_the_effect_names(effect: Effect, act: Act)
    requires
        asks(effect, act),
    ensures
        effect is FocusWindow ==> act is Focus && act->Focus_0 == effect->FocusWindow_window,
        effect is SetWindowFrame ==> act is SetFrame && act->SetFrame_0 == effect->SetWindowFrame_window && act->SetFrame_1 == effect->SetWindowFrame_frame,
        effect is SwitchWorkspace ==> act is SwitchWorkspace && act->SwitchWorkspace_0 == effect->SwitchWorkspace_target,
        effect is MoveWindowToWorkspace ==> act is MoveWindow && act->MoveWindow_0 == effect->MoveWindowToWorkspace_window && act->MoveWindow_1 == effect->MoveWindowToWorkspace_target,
        effect is AssignWindowToWorkspace ==> act is AssignWorkspace && act->AssignWorkspace_0 == effect->AssignWindowToWorkspace_window && act->AssignWorkspace_1 == effect->AssignWindowToWorkspace_target,
        effect is AssignWindowToMonitor ==> act is AssignMonitor && act->AssignMonitor_0 == effect->AssignWindowToMonitor_window && act->AssignMonitor_1 == effect->AssignWindowToMonitor_target,
        effect is ViewMonitor ==> act is ViewMonitor && act->ViewMonitor_0 == effect->ViewMonitor_target,
        effect is SetVirtualMonitors ==> act is SetVirtualMonitors && act->SetVirtualMonitors_0 == effect->SetVirtualMonitors_enabled,
        effect is MergeMonitors ==> act is MergeMonitors && act->MergeMonitors_0 == effect->MergeMonitors_from && act->MergeMonitors_1 == effect->MergeMonitors_into,
        effect is AddMonitor ==> act is AddMonitor,
        effect is WarpMouse ==> act is Warp && act->Warp_0 == effect->WarpMouse_to,
        effect is SetIntercepting ==> act is SetIntercepting && act->SetIntercepting_0 == effect->SetIntercepting_enabled,
        effect is FocusDesktop ==> act is FocusDesktop,
        effect is RequestRescan ==> act is Nothing,
        effect is RestackWindows ==> act is Restack && act->Restack_0@ == effect->RestackWindows_order@,
{
}

/// Asked to intercept, the tap claims every chord of the table from then on; asked
/// not to, it leaves all of them to the apps but the two that switch the daemon
/// on. What the core asks for on a rescue is what the second press of the rescue
/// chord has already set.
pub proof fn law_interception_is_switched_as_asked(
    enabled: bool,
    act: Act,
    keycode: u16,
    mods: crate::keys::Mods,
    tap: crate::platform::tap::Tap,
    now: u64,
)
    requires
        asks(Effect::SetIntercepting { enabled }, act),
        crate::keys::binding(keycode, mods) is Some,
        crate::keys::binding(keycode, mods) != Some(crate::keys::Chord::Engage),
        crate::keys::binding(keycode, mods) != Some(crate::keys::Chord::EngageFresh),
    ensures
        ({
            let press = crate::platform::tap::TapInput::KeyDown { keycode, mods };
            let flag = act->SetIntercepting_0;
            &&& act is SetIntercepting
            &&& tap.reply(flag, press, now).swallow <==> enabled
            &&& tap.reply(true, press, now).post == Some(crate::engine::Msg::Rescue) && !enabled
                ==> tap.reply(true, press, now).set_intercepting == Some(flag)
        }),
{
    crate::keys::law_switch_chords_need_the_triple(keycode, mods);
}

} // verus!
