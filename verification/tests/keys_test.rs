//! The keybinding table.

use ordo::keys::{code, digit, match_chord, witness, Chord, Mods, Witness};
use ordo::vocab::{HotkeyAction, WorkspaceId};

fn mods(cmd: bool, alt: bool, shift: bool, ctrl: bool) -> Mods {
    Mods {
        cmd,
        alt,
        shift,
        ctrl,
    }
}

/// Digit keycodes are not sequential and 5/6 are transposed, so a mapping
/// that looks right can silently send you to the wrong workspace. Pinned
/// against the literal codes rather than the table it is derived from.
#[test]
fn cmd_alt_digit_jumps_to_that_workspace() {
    let chord = mods(true, true, false, false);
    for (keycode, want) in [
        (0x12, 1u8),
        (0x13, 2),
        (0x14, 3),
        (0x15, 4),
        (0x17, 5),
        (0x16, 6),
        (0x1A, 7),
        (0x1C, 8),
        (0x19, 9),
    ] {
        assert_eq!(
            match_chord(keycode, chord),
            Some(Chord::Hotkey(HotkeyAction::WorkspaceSwitchTo(WorkspaceId(want)))),
            "keycode {keycode:#x}"
        );
    }
    // Bare Cmd+digit is deliberately NOT ours: tab switching is used far
    // too often to swallow. Nor is any other combination.
    assert_eq!(match_chord(0x12, mods(true, false, false, false)), None);
    assert_eq!(match_chord(0x12, mods(true, false, true, false)), None);
    assert_eq!(match_chord(0x12, mods(false, true, false, false)), None);
    assert_eq!(match_chord(0x12, mods(false, false, false, false)), None);
    // 0 is not bound: workspace 10 would need it and nothing asks for one.
    assert_eq!(match_chord(0x1D, chord), None);
}

#[test]
fn workspace_and_mru_chords_map_as_specified() {
    assert_eq!(
        match_chord(code::LEFT, mods(true, false, false, false)),
        Some(Chord::Hotkey(HotkeyAction::WorkspacePrev))
    );
    assert_eq!(
        match_chord(code::RIGHT, mods(true, false, false, false)),
        Some(Chord::Hotkey(HotkeyAction::WorkspaceNext))
    );
    assert_eq!(
        match_chord(code::TAB, mods(false, true, false, false)),
        Some(Chord::Hotkey(HotkeyAction::MruWorkspace))
    );
    assert_eq!(
        match_chord(code::TAB, mods(false, true, true, false)),
        Some(Chord::Hotkey(HotkeyAction::MruMonitor))
    );
    assert_eq!(
        match_chord(code::GRAVE, mods(false, true, false, false)),
        Some(Chord::Hotkey(HotkeyAction::MruApp))
    );
    assert_eq!(
        match_chord(code::TAB, mods(false, true, false, true)),
        Some(Chord::Hotkey(HotkeyAction::MruOtherMonitor))
    );
    // Ctrl+Alt+Cmd+Tab is nobody's chord — the full-triple family is
    // reserved for rescue/engage keys only.
    assert_eq!(match_chord(code::TAB, mods(true, true, false, true)), None);
}

#[test]
fn cmd_alt_j_k_view_monitors_and_the_triple_v_toggles_virtualization() {
    let chord = mods(true, true, false, false);
    assert_eq!(
        match_chord(code::J, chord),
        Some(Chord::Hotkey(HotkeyAction::ViewMonitorPrev))
    );
    assert_eq!(
        match_chord(code::K, chord),
        Some(Chord::Hotkey(HotkeyAction::ViewMonitorNext))
    );
    // The toggle is a full-triple chord, and survives an extra shift like
    // its neighbours; Cmd+Alt+V is NOT it.
    assert_eq!(
        match_chord(code::V, mods(true, true, false, true)),
        Some(Chord::Hotkey(HotkeyAction::ToggleVirtualMonitors))
    );
    assert_eq!(
        match_chord(code::V, mods(true, true, true, true)),
        Some(Chord::Hotkey(HotkeyAction::ToggleVirtualMonitors))
    );
    assert_eq!(match_chord(code::V, chord), None);
    // Cmd+V is Paste, Cmd+J/K are the apps' — only the exact chords are ours.
    for key in [code::J, code::K, code::V] {
        assert_eq!(match_chord(key, mods(true, false, false, false)), None);
        assert_eq!(match_chord(key, mods(false, true, false, false)), None);
        assert_eq!(match_chord(key, mods(true, true, true, false)), None);
        assert_eq!(match_chord(key, mods(false, false, false, false)), None);
    }
}

#[test]
fn cmd_shift_arrow_moves_window_and_other_decorated_arrows_pass_through() {
    // Cmd+Shift+arrows are claimed (window to the adjacent monitor)…
    assert_eq!(
        match_chord(code::LEFT, mods(true, false, true, false)),
        Some(Chord::Hotkey(HotkeyAction::MoveFocusedToMonitorPrev))
    );
    assert_eq!(
        match_chord(code::RIGHT, mods(true, false, true, false)),
        Some(Chord::Hotkey(HotkeyAction::MoveFocusedToMonitorNext))
    );
    // …but any other decoration still belongs to the apps.
    assert_eq!(
        match_chord(code::RIGHT, mods(true, true, false, false)),
        None
    );
    assert_eq!(match_chord(code::LEFT, mods(true, true, true, false)), None);
}

#[test]
fn ctrl_cmd_arrows_carry_and_the_mission_control_lever_passes_through() {
    assert_eq!(
        match_chord(code::LEFT, mods(true, false, false, true)),
        Some(Chord::Hotkey(HotkeyAction::CarryFocusedToWorkspacePrev))
    );
    assert_eq!(
        match_chord(code::RIGHT, mods(true, false, false, true)),
        Some(Chord::Hotkey(HotkeyAction::CarryFocusedToWorkspaceNext))
    );
    // Ctrl+Alt+Cmd+arrow is the synthesized Mission Control lever chord;
    // swallowing it would deadlock the native backend's own switch.
    assert_eq!(match_chord(code::LEFT, mods(true, true, false, true)), None);
    assert_eq!(
        match_chord(code::RIGHT, mods(true, true, false, true)),
        None
    );
    // Plain Ctrl+arrows belong to Hammerspoon.
    assert_eq!(
        match_chord(code::LEFT, mods(false, false, false, true)),
        None
    );
}

#[test]
fn alt_end_demotes_and_plain_end_is_not_ours() {
    assert_eq!(
        match_chord(code::END, mods(false, true, false, false)),
        Some(Chord::Hotkey(HotkeyAction::MruDemote))
    );
    assert_eq!(
        match_chord(code::END, mods(false, false, false, false)),
        None
    );
}

#[test]
fn rescue_chord_is_recognized_even_amid_extra_state() {
    assert_eq!(
        match_chord(code::ESCAPE, mods(true, true, false, true)),
        Some(Chord::RescueCandidate)
    );
    // Escape without the full modifier set is not ours.
    assert_eq!(
        match_chord(code::ESCAPE, mods(false, false, false, false)),
        None
    );
}

#[test]
fn engage_chord_is_recognized_and_plain_o_is_not_ours() {
    assert_eq!(
        match_chord(code::O, mods(true, true, false, true)),
        Some(Chord::Engage)
    );
    // Like rescue, it survives an extra held shift.
    assert_eq!(
        match_chord(code::O, mods(true, true, true, true)),
        Some(Chord::Engage)
    );
    // Plain or partially-modified O belongs to the apps.
    assert_eq!(match_chord(code::O, mods(false, false, false, false)), None);
    assert_eq!(match_chord(code::O, mods(true, false, false, false)), None);
}

#[test]
fn engage_fresh_and_save_state_chords_map_and_bare_keys_pass_through() {
    assert_eq!(
        match_chord(code::R, mods(true, true, false, true)),
        Some(Chord::EngageFresh)
    );
    assert_eq!(
        match_chord(code::S, mods(true, true, false, true)),
        Some(Chord::SaveState)
    );
    assert_eq!(match_chord(code::R, mods(false, false, false, false)), None);
    assert_eq!(match_chord(code::S, mods(true, false, false, false)), None);
    // Cmd+S is Save
}

#[test]
fn system_switchers_are_witnessed_but_never_claimed() {
    // Cmd+Tab and Cmd+` are macOS's; Ordo sees them and lets them go.
    for shift in [false, true] {
        let m = mods(true, false, shift, false);
        assert_eq!(match_chord(code::TAB, m), None);
        assert_eq!(witness(code::TAB, m), Some(Witness::AppSwitcherArmed));
        assert_eq!(match_chord(code::GRAVE, m), None);
        assert_eq!(witness(code::GRAVE, m), Some(Witness::WindowCycle));
    }
    // Ordo's own Alt-chords and the browsers' Ctrl+Tab are not witnessed.
    assert_eq!(witness(code::TAB, mods(false, true, false, false)), None);
    assert_eq!(witness(code::TAB, mods(false, false, false, true)), None);
    assert_eq!(witness(code::TAB, mods(true, true, false, false)), None);
    assert_eq!(witness(code::LEFT, mods(true, false, false, false)), None);
}

#[test]
fn unbound_keys_pass_through() {
    assert_eq!(
        match_chord(code::TAB, mods(true, false, false, false)),
        None
    );
    assert_eq!(match_chord(0x00, mods(false, false, false, false)), None);
}

#[test]
fn only_the_triple_family_ignores_shift() {
    assert_eq!(match_chord(code::ESCAPE, mods(true, true, true, true)), Some(Chord::RescueCandidate));
    assert_eq!(match_chord(code::R, mods(true, true, true, true)), Some(Chord::EngageFresh));
    assert_eq!(match_chord(code::S, mods(true, true, true, true)), Some(Chord::SaveState));
    assert_eq!(match_chord(code::GRAVE, mods(false, true, true, false)), None);
    assert_eq!(match_chord(code::END, mods(false, true, true, false)), None);
    assert_eq!(match_chord(code::TAB, mods(false, true, true, true)), None);
}

#[test]
fn digits_are_the_nine_top_row_keys() {
    let named: Vec<u8> = (0u16..128).filter_map(digit).collect();
    assert_eq!(named, vec![1, 2, 3, 4, 6, 5, 9, 7, 8]);
}
