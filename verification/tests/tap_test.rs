//! The tap: what is claimed, what is witnessed, and the kill switch.

use ordo::engine::Msg;
use ordo::keys::{code, Mods};
use ordo::platform::tap::{Tap, TapInput, RESCUE_WINDOW_NS};
use ordo::vocab::{Gesture, HotkeyAction, Point};

const TRIPLE: Mods = Mods { cmd: true, alt: true, shift: false, ctrl: true };
const CMD: Mods = Mods { cmd: true, alt: false, shift: false, ctrl: false };
const NONE: Mods = Mods { cmd: false, alt: false, shift: false, ctrl: false };

fn key(keycode: u16, mods: Mods) -> TapInput {
    TapInput::KeyDown { keycode, mods }
}

#[test]
fn the_second_rescue_press_within_two_seconds_frees_everything() {
    let mut tap = Tap::new();
    let first = tap.react(true, key(code::ESCAPE, TRIPLE), 5);
    assert!(first.swallow && first.post.is_none() && first.set_intercepting.is_none());
    let second = tap.react(true, key(code::ESCAPE, TRIPLE), 5 + RESCUE_WINDOW_NS);
    assert!(matches!(second.post, Some(Msg::Rescue)));
    assert_eq!(second.set_intercepting, Some(false));
    assert!(second.reassociate && second.swallow);
    // A third press starts over.
    let third = tap.react(true, key(code::ESCAPE, TRIPLE), 6 + RESCUE_WINDOW_NS);
    assert!(third.post.is_none());
}

#[test]
fn a_late_second_press_only_arms_again() {
    let mut tap = Tap::new();
    tap.react(true, key(code::ESCAPE, TRIPLE), 0);
    let late = tap.react(true, key(code::ESCAPE, TRIPLE), RESCUE_WINDOW_NS + 1);
    assert!(late.post.is_none());
    assert_eq!(tap.last_rescue, Some(RESCUE_WINDOW_NS + 1));
}

#[test]
fn while_off_only_the_engage_chords_are_heard() {
    let mut tap = Tap::new();
    let engage = tap.react(false, key(code::O, TRIPLE), 1);
    assert!(matches!(engage.post, Some(Msg::Engage)));
    assert_eq!(engage.set_intercepting, Some(true));
    let fresh = tap.react(false, key(code::R, TRIPLE), 2);
    assert!(matches!(fresh.post, Some(Msg::EngageFresh)) && fresh.swallow);
    for k in [code::ESCAPE, code::S, code::V] {
        let r = tap.react(false, key(k, TRIPLE), 3);
        assert!(!r.swallow && r.post.is_none());
    }
    let arrow = tap.react(false, key(code::RIGHT, CMD), 4);
    assert!(!arrow.swallow && arrow.post.is_none());
}

#[test]
fn hotkeys_are_claimed_with_the_time_they_were_pressed_at() {
    let mut tap = Tap::new();
    let r = tap.react(true, key(code::RIGHT, CMD), 77);
    assert!(r.swallow);
    assert!(matches!(r.post, Some(Msg::Hotkey(HotkeyAction::WorkspaceNext, 77))));
    assert!(matches!(tap.react(true, key(code::S, TRIPLE), 78).post, Some(Msg::SaveState)));
}

#[test]
fn the_app_switcher_is_reported_when_cmd_is_let_go() {
    let mut tap = Tap::new();
    let tab = tap.react(true, key(code::TAB, CMD), 1);
    assert!(!tab.swallow && tab.post.is_none());
    // Cmd still held: nothing yet.
    assert!(tap.react(true, TapInput::FlagsChanged { mods: CMD }, 2).post.is_none());
    let up = tap.react(true, TapInput::FlagsChanged { mods: NONE }, 3);
    assert!(matches!(up.post, Some(Msg::Gesture(Gesture::SystemSwitch))));
    assert!(tap.react(true, TapInput::FlagsChanged { mods: NONE }, 4).post.is_none());
}

#[test]
fn clicks_and_the_window_cycle_are_witnessed_and_passed_on() {
    let mut tap = Tap::new();
    let at = Point { x: 1, y: 2 };
    let click = tap.react(false, TapInput::MouseDown { at }, 1);
    assert!(!click.swallow);
    assert!(matches!(click.post, Some(Msg::Gesture(Gesture::MouseDown { at: p })) if p == at));
    let cycle = tap.react(true, key(code::GRAVE, CMD), 2);
    assert!(!cycle.swallow && matches!(cycle.post, Some(Msg::Gesture(Gesture::SystemSwitch))));
    assert!(tap.react(true, TapInput::Disabled, 3).reenable);
    assert!(!tap.react(true, TapInput::Other, 4).reenable);
}
