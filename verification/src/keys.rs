//! The keybinding table.
//!
//! Modifier matching is strict, so only the exact chord is claimed and every
//! decorated variant stays with the apps. The exception is the family held
//! with Ctrl+Alt+Cmd all down: those are the way in and out of the daemon, and
//! an extra Shift must not keep them from being heard.
//!
//! A second table names the system's own focus-moving chords. They are never
//! claimed, only noticed: without a trace of them the focus change they cause
//! looks like an app flinging focus around.

use crate::vocab::{HotkeyAction, WorkspaceId};
use vstd::prelude::*;

pub mod code;

verus! {

/// The modifiers held with a key.
#[derive(Clone, Copy, Debug, PartialEq, Eq, Structural)]
pub struct Mods {
    pub cmd: bool,
    pub alt: bool,
    pub shift: bool,
    pub ctrl: bool,
}

/// A key press the daemon answers to.
#[derive(Clone, Copy, Debug, PartialEq, Eq, Structural)]
pub enum Chord {
    Hotkey(HotkeyAction),
    /// One press of the rescue chord; the tap decides whether it is the second.
    RescueCandidate,
    /// Come alive with the saved state.
    Engage,
    /// Come alive with a blank workspace model.
    EngageFresh,
    /// Make the current arrangement the saved state.
    SaveState,
}

/// A system focus gesture, seen and let through.
#[derive(Clone, Copy, Debug, PartialEq, Eq, Structural)]
pub enum Witness {
    /// The app switcher is up; it acts when Cmd is released.
    AppSwitcherArmed,
    /// The in-app window cycle, which acts at once.
    WindowCycle,
}

impl Mods {
    /// Exactly these modifiers, no others.
    pub open spec fn exactly(self, cmd: bool, alt: bool, shift: bool, ctrl: bool) -> bool {
        self == (Mods { cmd, alt, shift, ctrl })
    }

    /// Ctrl, Alt and Cmd together, whatever Shift does.
    pub open spec fn triple(self) -> bool {
        self.ctrl && self.alt && self.cmd
    }
}

/// The workspace a top-row digit names. The codes are physical, not numeric:
/// they are not sequential, and 5 and 6 are transposed.
pub open spec fn digit_of(keycode: u16) -> Option<u8> {
    if keycode == 0x12 {
        Some(1u8)
    } else if keycode == 0x13 {
        Some(2u8)
    } else if keycode == 0x14 {
        Some(3u8)
    } else if keycode == 0x15 {
        Some(4u8)
    } else if keycode == 0x17 {
        Some(5u8)
    } else if keycode == 0x16 {
        Some(6u8)
    } else if keycode == 0x1A {
        Some(7u8)
    } else if keycode == 0x1C {
        Some(8u8)
    } else if keycode == 0x19 {
        Some(9u8)
    } else {
        None
    }
}

/// What a pair of arrow keys means under some modifiers.
pub open spec fn arrows(keycode: u16, left: HotkeyAction, right: HotkeyAction) -> Option<Chord> {
    if keycode == code::LEFT {
        Some(Chord::Hotkey(left))
    } else if keycode == code::RIGHT {
        Some(Chord::Hotkey(right))
    } else {
        None
    }
}

/// The keys bound under Ctrl+Alt+Cmd.
pub open spec fn triple_binding(keycode: u16) -> Option<Chord> {
    if keycode == code::ESCAPE {
        Some(Chord::RescueCandidate)
    } else if keycode == code::O {
        Some(Chord::Engage)
    } else if keycode == code::R {
        Some(Chord::EngageFresh)
    } else if keycode == code::S {
        Some(Chord::SaveState)
    } else if keycode == code::V {
        Some(Chord::Hotkey(HotkeyAction::ToggleVirtualMonitors))
    } else {
        None
    }
}

/// The keys bound under Cmd+Alt.
pub open spec fn cmd_alt_binding(keycode: u16) -> Option<Chord> {
    match digit_of(keycode) {
        Some(n) => Some(Chord::Hotkey(HotkeyAction::WorkspaceSwitchTo(WorkspaceId(n)))),
        None => if keycode == code::J {
            Some(Chord::Hotkey(HotkeyAction::ViewMonitorPrev))
        } else if keycode == code::K {
            Some(Chord::Hotkey(HotkeyAction::ViewMonitorNext))
        } else {
            None
        },
    }
}

/// The keys bound under Alt alone.
pub open spec fn alt_binding(keycode: u16) -> Option<Chord> {
    if keycode == code::TAB {
        Some(Chord::Hotkey(HotkeyAction::MruWorkspace))
    } else if keycode == code::GRAVE {
        Some(Chord::Hotkey(HotkeyAction::MruApp))
    } else if keycode == code::END {
        Some(Chord::Hotkey(HotkeyAction::MruDemote))
    } else {
        None
    }
}

/// The keys bound under Alt+Shift.
pub open spec fn alt_shift_binding(keycode: u16) -> Option<Chord> {
    if keycode == code::TAB {
        Some(Chord::Hotkey(HotkeyAction::MruMonitor))
    } else {
        None
    }
}

/// The whole table: one row of keys per set of held modifiers.
pub open spec fn binding(keycode: u16, m: Mods) -> Option<Chord> {
    if m.triple() {
        triple_binding(keycode)
    } else if m.exactly(true, true, false, false) {
        cmd_alt_binding(keycode)
    } else if m.exactly(true, false, false, false) {
        arrows(keycode, HotkeyAction::WorkspacePrev, HotkeyAction::WorkspaceNext)
    } else if m.exactly(true, false, true, false) {
        arrows(
            keycode,
            HotkeyAction::MoveFocusedToMonitorPrev,
            HotkeyAction::MoveFocusedToMonitorNext,
        )
    } else if m.exactly(true, false, false, true) {
        arrows(
            keycode,
            HotkeyAction::CarryFocusedToWorkspacePrev,
            HotkeyAction::CarryFocusedToWorkspaceNext,
        )
    } else if m.exactly(false, true, false, true) && keycode == code::TAB {
        Some(Chord::Hotkey(HotkeyAction::MruOtherMonitor))
    } else if m.exactly(false, true, true, false) {
        alt_shift_binding(keycode)
    } else if m.exactly(false, true, false, false) {
        alt_binding(keycode)
    } else {
        None
    }
}

/// The system's own focus chords: Cmd+Tab and Cmd+`, with or without Shift.
pub open spec fn witnessed(keycode: u16, m: Mods) -> Option<Witness> {
    if m.cmd && !m.alt && !m.ctrl && keycode == code::TAB {
        Some(Witness::AppSwitcherArmed)
    } else if m.cmd && !m.alt && !m.ctrl && keycode == code::GRAVE {
        Some(Witness::WindowCycle)
    } else {
        None
    }
}

/// The system focus gesture a key-down is, if it is one.
pub fn witness(keycode: u16, m: Mods) -> (r: Option<Witness>)
    ensures
        r == witnessed(keycode, m),
{
    if !(m.cmd && !m.alt && !m.ctrl) {
        return None;
    }
    if keycode == code::TAB {
        Some(Witness::AppSwitcherArmed)
    } else if keycode == code::GRAVE {
        Some(Witness::WindowCycle)
    } else {
        None
    }
}

/// The chord a key-down maps to, or `None` to pass it through to the app.
pub fn match_chord(keycode: u16, m: Mods) -> (r: Option<Chord>)
    ensures
        r == binding(keycode, m),
{
    // The way in and out comes first: it must be heard amid other modifiers.
    if m.ctrl && m.alt && m.cmd {
        if keycode == code::ESCAPE {
            return Some(Chord::RescueCandidate);
        }
        if keycode == code::O {
            return Some(Chord::Engage);
        }
        if keycode == code::R {
            return Some(Chord::EngageFresh);
        }
        if keycode == code::S {
            return Some(Chord::SaveState);
        }
        if keycode == code::V {
            return Some(Chord::Hotkey(HotkeyAction::ToggleVirtualMonitors));
        }
        return None;
    }
    if cmd_alt(m) {
        if let Some(n) = digit(keycode) {
            return Some(Chord::Hotkey(HotkeyAction::WorkspaceSwitchTo(WorkspaceId(n))));
        }
        if keycode == code::J {
            return Some(Chord::Hotkey(HotkeyAction::ViewMonitorPrev));
        }
        if keycode == code::K {
            return Some(Chord::Hotkey(HotkeyAction::ViewMonitorNext));
        }
        return None;
    }
    if keycode == code::LEFT {
        if only_cmd(m) {
            Some(Chord::Hotkey(HotkeyAction::WorkspacePrev))
        } else if cmd_shift(m) {
            Some(Chord::Hotkey(HotkeyAction::MoveFocusedToMonitorPrev))
        } else if cmd_ctrl(m) {
            Some(Chord::Hotkey(HotkeyAction::CarryFocusedToWorkspacePrev))
        } else {
            None
        }
    } else if keycode == code::RIGHT {
        if only_cmd(m) {
            Some(Chord::Hotkey(HotkeyAction::WorkspaceNext))
        } else if cmd_shift(m) {
            Some(Chord::Hotkey(HotkeyAction::MoveFocusedToMonitorNext))
        } else if cmd_ctrl(m) {
            Some(Chord::Hotkey(HotkeyAction::CarryFocusedToWorkspaceNext))
        } else {
            None
        }
    } else if m.cmd || !m.alt {
        None
    } else if keycode == code::TAB {
        if m.ctrl {
            if m.shift {
                None
            } else {
                Some(Chord::Hotkey(HotkeyAction::MruOtherMonitor))
            }
        } else if m.shift {
            Some(Chord::Hotkey(HotkeyAction::MruMonitor))
        } else {
            Some(Chord::Hotkey(HotkeyAction::MruWorkspace))
        }
    } else if keycode == code::GRAVE && !m.shift && !m.ctrl {
        Some(Chord::Hotkey(HotkeyAction::MruApp))
    } else if keycode == code::END && !m.shift && !m.ctrl {
        Some(Chord::Hotkey(HotkeyAction::MruDemote))
    } else {
        None
    }
}

/// The workspace a top-row digit key names.
pub fn digit(keycode: u16) -> (r: Option<u8>)
    ensures
        r == digit_of(keycode),
{
    let digits: [u16; 9] = [0x12, 0x13, 0x14, 0x15, 0x17, 0x16, 0x1A, 0x1C, 0x19];
    let mut i: usize = 0;
    while i < 9
        invariant
            i <= 9,
            digits@ == seq![
                0x12u16,
                0x13u16,
                0x14u16,
                0x15u16,
                0x17u16,
                0x16u16,
                0x1Au16,
                0x1Cu16,
                0x19u16,
            ],
            forall|j: int| 0 <= j < i ==> digits@[j] != keycode,
        decreases 9 - i,
    {
        if digits[i] == keycode {
            return Some(i as u8 + 1);
        }
        i += 1;
    }
    assert(digits@[0] != keycode && digits@[1] != keycode && digits@[2] != keycode);
    assert(digits@[3] != keycode && digits@[4] != keycode && digits@[5] != keycode);
    assert(digits@[6] != keycode && digits@[7] != keycode && digits@[8] != keycode);
    None
}

/// Cmd, and none of the others.
pub fn only_cmd(m: Mods) -> (r: bool)
    ensures
        r == m.exactly(true, false, false, false),
{
    m.cmd && !m.alt && !m.shift && !m.ctrl
}

/// Cmd+Alt exactly.
pub fn cmd_alt(m: Mods) -> (r: bool)
    ensures
        r == m.exactly(true, true, false, false),
{
    m.cmd && m.alt && !m.shift && !m.ctrl
}

/// Cmd+Shift exactly.
pub fn cmd_shift(m: Mods) -> (r: bool)
    ensures
        r == m.exactly(true, false, true, false),
{
    m.cmd && m.shift && !m.alt && !m.ctrl
}

/// Ctrl+Cmd exactly. Without Alt: Ctrl+Alt+Cmd+arrow is the system shortcut
/// the native backend presses, and it must sail through.
pub fn cmd_ctrl(m: Mods) -> (r: bool)
    ensures
        r == m.exactly(true, false, false, true),
{
    m.cmd && m.ctrl && !m.alt && !m.shift
}

/// The system's focus chords are witnessed but never claimed.
pub proof fn law_witnessed_is_never_claimed(keycode: u16, m: Mods)
    requires
        witnessed(keycode, m) is Some,
    ensures
        binding(keycode, m) is None,
{
}

/// Ctrl+Alt+Cmd+arrow belongs to no chord, so the native backend's own presses
/// pass through the tap.
pub proof fn law_space_switch_shortcut_passes_through(keycode: u16, m: Mods)
    requires
        m.triple(),
        keycode == code::LEFT || keycode == code::RIGHT,
    ensures
        binding(keycode, m) is None,
{
}

/// Shift never hides a chord of the Ctrl+Alt+Cmd family, nor adds one.
pub proof fn law_triple_chords_ignore_shift(keycode: u16, m: Mods)
    requires
        m.triple(),
    ensures
        binding(keycode, m) == binding(keycode, (Mods { shift: !m.shift, ..m })),
{
}

/// The chords that switch the daemon on and off, and that save its state, are
/// heard exactly under Ctrl+Alt+Cmd.
pub proof fn law_switch_chords_need_the_triple(keycode: u16, m: Mods)
    ensures
        binding(keycode, m) == Some(Chord::RescueCandidate) <==> (m.triple() && keycode
            == code::ESCAPE),
        binding(keycode, m) == Some(Chord::Engage) <==> (m.triple() && keycode == code::O),
        binding(keycode, m) == Some(Chord::EngageFresh) <==> (m.triple() && keycode == code::R),
        binding(keycode, m) == Some(Chord::SaveState) <==> (m.triple() && keycode == code::S),
{
}

/// A key held with neither Cmd nor Alt always belongs to the apps.
pub proof fn law_plain_keys_pass_through(keycode: u16, m: Mods)
    requires
        !m.cmd,
        !m.alt,
    ensures
        binding(keycode, m) is None,
        witnessed(keycode, m) is None,
{
}

/// A direct jump names a workspace from 1 to 9, and no two keys name the same.
pub proof fn law_digits_are_distinct_ordinals(a: u16, b: u16)
    ensures
        digit_of(a) matches Some(n) ==> 1 <= n <= 9,
        digit_of(a) is Some && digit_of(a) == digit_of(b) ==> a == b,
{
}

/// Exactly the row `1` to `9` over the letters jumps, each key to the workspace
/// printed on it, under Cmd+Alt and nothing else.
pub proof fn law_a_digit_jumps_to_its_workspace(keycode: u16, m: Mods, n: u8)
    ensures
        binding(keycode, m) == Some(
            Chord::Hotkey(HotkeyAction::WorkspaceSwitchTo(WorkspaceId(n))),
        ) <==> {
            &&& m.cmd && m.alt && !m.shift && !m.ctrl
            &&& ((keycode == 0x12 && n == 1) || (keycode == 0x13 && n == 2) || (keycode == 0x14 && n
                == 3) || (keycode == 0x15 && n == 4) || (keycode == 0x17 && n == 5) || (keycode
                == 0x16 && n == 6) || (keycode == 0x1A && n == 7) || (keycode == 0x1C && n == 8)
                || (keycode == 0x19 && n == 9))
        },
{
}

/// The arrow keys step: with Cmd through the workspaces, with Cmd+Shift the
/// focused window goes to the neighbouring monitor, and with Ctrl+Cmd it is
/// carried along. Left is back and right is on.
pub proof fn law_arrows_step_the_way_they_point(keycode: u16, m: Mods)
    ensures
        ({
            let does = |a: HotkeyAction| binding(keycode, m) == Some(Chord::Hotkey(a));
            let cmd = m.cmd && !m.alt && !m.shift && !m.ctrl;
            let shift = m.cmd && !m.alt && m.shift && !m.ctrl;
            let ctrl = m.cmd && !m.alt && !m.shift && m.ctrl;
            &&& does(HotkeyAction::WorkspacePrev) <==> cmd && keycode == 0x7B
            &&& does(HotkeyAction::WorkspaceNext) <==> cmd && keycode == 0x7C
            &&& does(HotkeyAction::MoveFocusedToMonitorPrev) <==> shift && keycode == 0x7B
            &&& does(HotkeyAction::MoveFocusedToMonitorNext) <==> shift && keycode == 0x7C
            &&& does(HotkeyAction::CarryFocusedToWorkspacePrev) <==> ctrl && keycode == 0x7B
            &&& does(HotkeyAction::CarryFocusedToWorkspaceNext) <==> ctrl && keycode == 0x7C
        }),
{
}

/// Alt+Tab walks back through the workspace's windows, with Shift through the
/// monitor's, with Ctrl on the other monitor; Alt+` walks the app's, and
/// Alt+End sends the window to the back.
pub proof fn law_alt_walks_the_recent_windows(keycode: u16, m: Mods)
    ensures
        ({
            let does = |a: HotkeyAction| binding(keycode, m) == Some(Chord::Hotkey(a));
            let alt = !m.cmd && m.alt && !m.shift && !m.ctrl;
            let shift = !m.cmd && m.alt && m.shift && !m.ctrl;
            let ctrl = !m.cmd && m.alt && !m.shift && m.ctrl;
            &&& does(HotkeyAction::MruWorkspace) <==> alt && keycode == 0x30
            &&& does(HotkeyAction::MruMonitor) <==> shift && keycode == 0x30
            &&& does(HotkeyAction::MruOtherMonitor) <==> ctrl && keycode == 0x30
            &&& does(HotkeyAction::MruApp) <==> alt && keycode == 0x32
            &&& does(HotkeyAction::MruDemote) <==> alt && keycode == 0x77
        }),
{
}

/// Cmd+Alt+J and K look at the previous and the next virtual monitor, and
/// Ctrl+Alt+Cmd+V shows or hides them all.
pub proof fn law_virtual_monitors_have_their_keys(keycode: u16, m: Mods)
    ensures
        ({
            let does = |a: HotkeyAction| binding(keycode, m) == Some(Chord::Hotkey(a));
            let cmd_alt = m.cmd && m.alt && !m.shift && !m.ctrl;
            &&& does(HotkeyAction::ViewMonitorPrev) <==> cmd_alt && keycode == 0x26
            &&& does(HotkeyAction::ViewMonitorNext) <==> cmd_alt && keycode == 0x28
            &&& does(HotkeyAction::ToggleVirtualMonitors) <==> m.ctrl && m.alt && m.cmd && keycode
                == 0x09
        }),
{
}

/// Under Ctrl+Alt+Cmd, whatever Shift does, Escape asks for rescue, O switches
/// the daemon on, R switches it on afresh, and S saves its state.
pub proof fn law_the_daemon_has_its_keys(keycode: u16, m: Mods)
    ensures
        ({
            let held = m.ctrl && m.alt && m.cmd;
            let bound = binding(keycode, m);
            &&& bound == Some(Chord::RescueCandidate) <==> held && keycode == 0x35
            &&& bound == Some(Chord::Engage) <==> held && keycode == 0x1F
            &&& bound == Some(Chord::EngageFresh) <==> held && keycode == 0x0F
            &&& bound == Some(Chord::SaveState) <==> held && keycode == 0x01
        }),
{
}

/// The app switcher is Cmd+Tab and the window cycle Cmd+`, with Shift or
/// without, and nothing else is either.
pub proof fn law_system_chords_are_told_apart(keycode: u16, m: Mods)
    ensures
        witnessed(keycode, m) == Some(Witness::AppSwitcherArmed) <==> m.cmd && !m.alt && !m.ctrl
            && keycode == 0x30,
        witnessed(keycode, m) == Some(Witness::WindowCycle) <==> m.cmd && !m.alt && !m.ctrl
            && keycode == 0x32,
{
}

} // verus!
