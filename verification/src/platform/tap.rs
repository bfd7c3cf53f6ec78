//! The global hotkey tap.
//!
//! Every key-down, mouse-down and modifier change passes through here. Chords
//! of the table are claimed: a message goes to the engine and the key goes no
//! further. The user's own focus gestures are witnessed: reported, and passed
//! through untouched.
//!
//! The rescue chord is decided here rather than by the engine, so that the kill
//! switch works even when the engine is stuck: the second press within the
//! window frees the keyboard and the pointer at once.

use crate::engine::Msg;
use crate::keys::{match_chord, witness, Chord, Mods, Witness};
use crate::vocab::{Gesture, Point};
use vstd::prelude::*;

verus! {

/// Two presses of the rescue chord no further apart than this engage rescue.
pub const RESCUE_WINDOW_NS: u64 = 2_000_000_000;

/// What the tap remembers between events.
#[derive(Clone, Copy, Debug, PartialEq, Eq, Structural)]
pub struct Tap {
    /// The rescue press that a second one would complete.
    pub last_rescue: Option<u64>,
    /// The app switcher is up: it acts when Cmd is released.
    pub app_switcher_armed: bool,
}

/// One event, as the system hands it to the tap.
#[derive(Clone, Copy, Debug, PartialEq, Eq, Structural)]
pub enum TapInput {
    /// The system switched the tap off.
    Disabled,
    MouseDown { at: Point },
    FlagsChanged { mods: Mods },
    KeyDown { keycode: u16, mods: Mods },
    /// Anything the tap did not ask for.
    Other,
}

/// What the tap does about one event.
#[derive(Debug)]
pub struct TapReply {
    /// Keep the event from the apps.
    pub swallow: bool,
    /// Tell the engine.
    pub post: Option<Msg>,
    /// Switch interception.
    pub set_intercepting: Option<bool>,
    /// Switch the tap itself back on.
    pub reenable: bool,
    /// Give the pointer back to the mouse.
    pub reassociate: bool,
}

impl TapReply {
    /// Let the event through and do nothing.
    pub open spec fn passed() -> TapReply {
        TapReply {
            swallow: false,
            post: None,
            set_intercepting: None,
            reenable: false,
            reassociate: false,
        }
    }

    /// Let the event through and report a gesture.
    pub open spec fn witnessed(gesture: Gesture) -> TapReply {
        TapReply { post: Some(Msg::Gesture(gesture)), ..TapReply::passed() }
    }

    /// Claim the key.
    pub open spec fn claimed(msg: Msg) -> TapReply {
        TapReply { swallow: true, post: Some(msg), ..TapReply::passed() }
    }

    fn pass() -> (r: TapReply)
        ensures
            r == TapReply::passed(),
    {
        TapReply {
            swallow: false,
            post: None,
            set_intercepting: None,
            reenable: false,
            reassociate: false,
        }
    }

    fn witness(gesture: Gesture) -> (r: TapReply)
        ensures
            r == TapReply::witnessed(gesture),
    {
        TapReply {
            swallow: false,
            post: Some(Msg::Gesture(gesture)),
            set_intercepting: None,
            reenable: false,
            reassociate: false,
        }
    }

    fn claim(msg: Msg) -> (r: TapReply)
        ensures
            r == TapReply::claimed(msg),
    {
        TapReply {
            swallow: true,
            post: Some(msg),
            set_intercepting: None,
            reenable: false,
            reassociate: false,
        }
    }
}

impl Tap {
    pub fn new() -> (r: Tap)
        ensures
            r == (Tap { last_rescue: None, app_switcher_armed: false }),
    {
        Tap { last_rescue: None, app_switcher_armed: false }
    }

    /// A rescue press at `now` is the second of a pair.
    pub open spec fn completes_rescue(self, now: u64) -> bool {
        self.last_rescue matches Some(t) && now - t <= RESCUE_WINDOW_NS
    }

    /// The reply to a claimed chord.
    pub open spec fn chord_reply(self, chord: Chord, now: u64) -> TapReply {
        match chord {
            Chord::Engage => TapReply {
                set_intercepting: Some(true),
                ..TapReply::claimed(Msg::Engage)
            },
            Chord::EngageFresh => TapReply {
                set_intercepting: Some(true),
                ..TapReply::claimed(Msg::EngageFresh)
            },
            Chord::Hotkey(action) => TapReply::claimed(Msg::Hotkey(action, now)),
            Chord::SaveState => TapReply::claimed(Msg::SaveState),
            Chord::RescueCandidate => if self.completes_rescue(now) {
                TapReply {
                    set_intercepting: Some(false),
                    reassociate: true,
                    ..TapReply::claimed(Msg::Rescue)
                }
            } else {
                TapReply { swallow: true, ..TapReply::passed() }
            },
        }
    }

    /// The chord a key press is claimed for. The two that switch the daemon on
    /// are heard always, everything else only while it is on.
    pub open spec fn claims(intercepting: bool, keycode: u16, mods: Mods) -> Option<Chord> {
        match crate::keys::binding(keycode, mods) {
            Some(c) => if intercepting || c == Chord::Engage || c == Chord::EngageFresh {
                Some(c)
            } else {
                None
            },
            None => None,
        }
    }

    /// What the tap replies.
    pub open spec fn reply(self, intercepting: bool, input: TapInput, now: u64) -> TapReply {
        match input {
            TapInput::Disabled => TapReply { reenable: true, ..TapReply::passed() },
            TapInput::MouseDown { at } => TapReply::witnessed(Gesture::MouseDown { at }),
            TapInput::FlagsChanged { mods } => if !mods.cmd && self.app_switcher_armed {
                TapReply::witnessed(Gesture::SystemSwitch)
            } else {
                TapReply::passed()
            },
            TapInput::KeyDown { keycode, mods } => match Tap::claims(intercepting, keycode, mods) {
                Some(chord) => self.chord_reply(chord, now),
                None => if crate::keys::witnessed(keycode, mods) == Some(Witness::WindowCycle) {
                    TapReply::witnessed(Gesture::SystemSwitch)
                } else {
                    TapReply::passed()
                },
            },
            TapInput::Other => TapReply::passed(),
        }
    }

    /// What the tap remembers afterwards.
    pub open spec fn after(self, intercepting: bool, input: TapInput, now: u64) -> Tap {
        match input {
            TapInput::FlagsChanged { mods } => Tap {
                app_switcher_armed: self.app_switcher_armed && mods.cmd,
                ..self
            },
            TapInput::KeyDown { keycode, mods } => match Tap::claims(intercepting, keycode, mods) {
                Some(Chord::RescueCandidate) => Tap {
                    last_rescue: if self.completes_rescue(now) {
                        None
                    } else {
                        Some(now)
                    },
                    ..self
                },
                Some(_) => self,
                None => Tap {
                    app_switcher_armed: self.app_switcher_armed || crate::keys::witnessed(
                        keycode,
                        mods,
                    ) == Some(Witness::AppSwitcherArmed),
                    ..self
                },
            },
            _ => self,
        }
    }

    /// Decide about one event. `intercepting` is whether the daemon is on, and
    /// `now` the monotonic clock in nanoseconds.
    pub fn react(&mut self, intercepting: bool, input: TapInput, now: u64) -> (r: TapReply)
        ensures
            r == old(self).reply(intercepting, input, now),
            *final(self) == old(self).after(intercepting, input, now),
    {
        match input {
            TapInput::Disabled => TapReply {
                swallow: false,
                post: None,
                set_intercepting: None,
                reenable: true,
                reassociate: false,
            },
            TapInput::MouseDown { at } => TapReply::witness(Gesture::MouseDown { at }),
            TapInput::FlagsChanged { mods } => {
                if !mods.cmd && self.app_switcher_armed {
                    self.app_switcher_armed = false;
                    TapReply::witness(Gesture::SystemSwitch)
                } else {
                    TapReply::pass()
                }
            },
            TapInput::KeyDown { keycode, mods } => self.key_down(intercepting, keycode, mods, now),
            TapInput::Other => TapReply::pass(),
        }
    }

    fn key_down(&mut self, intercepting: bool, keycode: u16, mods: Mods, now: u64) -> (r: TapReply)
        ensures
            r == old(self).reply(intercepting, (TapInput::KeyDown { keycode, mods }), now),
            *final(self) == old(self).after(
                intercepting,
                (TapInput::KeyDown { keycode, mods }),
                now,
            ),
    {
        match match_chord(keycode, mods) {
            // Switched here, like rescue, so that coming alive does not depend
            // on the engine either.
            Some(Chord::Engage) => TapReply {
                swallow: true,
                post: Some(Msg::Engage),
                set_intercepting: Some(true),
                reenable: false,
                reassociate: false,
            },
            Some(Chord::EngageFresh) => TapReply {
                swallow: true,
                post: Some(Msg::EngageFresh),
                set_intercepting: Some(true),
                reenable: false,
                reassociate: false,
            },
            Some(Chord::Hotkey(action)) if intercepting => TapReply::claim(
                Msg::Hotkey(action, now),
            ),
            Some(Chord::RescueCandidate) if intercepting => self.rescue_press(now),
            Some(Chord::SaveState) if intercepting => TapReply::claim(Msg::SaveState),
            _ => {
                match witness(keycode, mods) {
                    Some(Witness::AppSwitcherArmed) => {
                        self.app_switcher_armed = true;
                        TapReply::pass()
                    },
                    Some(Witness::WindowCycle) => TapReply::witness(Gesture::SystemSwitch),
                    None => TapReply::pass(),
                }
            },
        }
    }

    fn rescue_press(&mut self, now: u64) -> (r: TapReply)
        ensures
            r == old(self).chord_reply(Chord::RescueCandidate, now),
            final(self).app_switcher_armed == old(self).app_switcher_armed,
            final(self).last_rescue == (if old(self).completes_rescue(now) {
                None
            } else {
                Some(now)
            }),
    {
        let armed = match self.last_rescue {
            Some(t) => now.saturating_sub(t) <= RESCUE_WINDOW_NS,
            None => false,
        };
        if armed {
            self.last_rescue = None;
            TapReply {
                swallow: true,
                post: Some(Msg::Rescue),
                set_intercepting: Some(false),
                reenable: false,
                reassociate: true,
            }
        } else {
            self.last_rescue = Some(now);
            TapReply {
                swallow: true,
                post: None,
                set_intercepting: None,
                reenable: false,
                reassociate: false,
            }
        }
    }
}

/// Rescue always frees both the keyboard and the pointer, and nothing but a
/// second rescue press does either.
pub proof fn law_rescue_frees_keyboard_and_pointer(
    tap: Tap,
    intercepting: bool,
    input: TapInput,
    now: u64,
)
    ensures
        ({
            let r = tap.reply(intercepting, input, now);
            let second_press = input matches TapInput::KeyDown { keycode, mods } && mods.triple()
                && keycode == crate::keys::code::ESCAPE && intercepting && tap.completes_rescue(
                now,
            );
            &&& r.post == Some(Msg::Rescue) <==> second_press
            &&& r.set_intercepting == Some(false) <==> second_press
            &&& r.reassociate <==> second_press
        }),
{
    if let TapInput::KeyDown { keycode, mods } = input {
        crate::keys::law_switch_chords_need_the_triple(keycode, mods);
    }
}

/// Whatever the tap remembers, two rescue presses within the window engage
/// rescue, at the second press or already at the first.
pub proof fn law_two_presses_rescue(tap: Tap, keycode: u16, mods: Mods, first: u64, second: u64)
    requires
        mods.triple(),
        keycode == crate::keys::code::ESCAPE,
        first <= second <= first + RESCUE_WINDOW_NS,
    ensures
        ({
            let press = TapInput::KeyDown { keycode, mods };
            let then = tap.after(true, press, first);
            ||| tap.reply(true, press, first).post == Some(Msg::Rescue)
            ||| then.reply(true, press, second).post == Some(Msg::Rescue)
        }),
{
}

/// One press of the rescue chord never rescues a tap that has not heard one,
/// nor one that has just rescued.
pub proof fn law_one_press_only_arms(tap: Tap, keycode: u16, mods: Mods, now: u64)
    requires
        tap.last_rescue is None,
    ensures
        tap.reply(true, (TapInput::KeyDown { keycode, mods }), now).post != Some(Msg::Rescue),
{
}

/// While the daemon is off, every key goes to the apps but the two chords that
/// switch it on, and nothing reaches the engine beside those but gestures.
pub proof fn law_disengaged_keys_belong_to_the_apps(tap: Tap, input: TapInput, now: u64)
    ensures
        ({
            let r = tap.reply(false, input, now);
            let wakes = input matches TapInput::KeyDown { keycode, mods } && mods.triple() && (
            keycode == crate::keys::code::O || keycode == crate::keys::code::R);
            &&& r.swallow <==> wakes
            &&& r.set_intercepting == Some(true) <==> wakes
            &&& !wakes ==> (r.post is None || r.post->0 is Gesture)
        }),
{
    if let TapInput::KeyDown { keycode, mods } = input {
        crate::keys::law_switch_chords_need_the_triple(keycode, mods);
    }
}

/// Mouse-downs and modifier changes are only ever listened to, and a gesture is
/// never swallowed.
pub proof fn law_gestures_pass_through(tap: Tap, intercepting: bool, input: TapInput, now: u64)
    ensures
        !(input is KeyDown) ==> !tap.reply(intercepting, input, now).swallow,
        tap.reply(intercepting, input, now).post matches Some(Msg::Gesture(_)) ==> !tap.reply(
            intercepting,
            input,
            now,
        ).swallow,
{
}

/// The app switcher is reported once per use: when Cmd is let go after
/// Cmd+Tab, and not again until the next Cmd+Tab.
pub proof fn law_app_switcher_reported_on_release(
    tap: Tap,
    intercepting: bool,
    held: Mods,
    released: Mods,
    t0: u64,
    t1: u64,
    t2: u64,
)
    requires
        held.cmd && !held.alt && !held.ctrl,
        !released.cmd,
    ensures
        ({
            let tab = TapInput::KeyDown { keycode: crate::keys::code::TAB, mods: held };
            let up = TapInput::FlagsChanged { mods: released };
            let armed = tap.after(intercepting, tab, t0);
            let done = armed.after(intercepting, up, t1);
            &&& tap.reply(intercepting, tab, t0) == TapReply::passed()
            &&& armed.reply(intercepting, up, t1) == TapReply::witnessed(Gesture::SystemSwitch)
            &&& done.reply(intercepting, up, t2) == TapReply::passed()
        }),
{
    crate::keys::law_witnessed_is_never_claimed(crate::keys::code::TAB, held);
}

/// A hotkey is posted while the daemon is on, and only then: with the action
/// its chord is bound to and the time it was pressed, and no app sees the key.
pub proof fn law_hotkeys_are_posted_as_pressed(
    tap: Tap,
    intercepting: bool,
    keycode: u16,
    mods: Mods,
    now: u64,
    action: crate::vocab::HotkeyAction,
    at: u64,
)
    ensures
        ({
            let r = tap.reply(intercepting, (TapInput::KeyDown { keycode, mods }), now);
            &&& r.post == Some(Msg::Hotkey(action, at)) <==> {
                &&& intercepting
                &&& crate::keys::binding(keycode, mods) == Some(Chord::Hotkey(action))
                &&& at == now
            }
            &&& intercepting ==> (r.swallow <==> crate::keys::binding(keycode, mods) is Some)
            &&& r.post is Some && !(r.post->0 is Gesture) ==> r.swallow
        }),
{
}

/// Each way of switching the daemon on says which it is, and takes effect in
/// the tap at once, whether the daemon is on or off; the state is saved only
/// while it is on.
pub proof fn law_the_daemon_is_switched_as_asked(
    tap: Tap,
    intercepting: bool,
    keycode: u16,
    mods: Mods,
    now: u64,
)
    ensures
        ({
            let r = tap.reply(intercepting, (TapInput::KeyDown { keycode, mods }), now);
            let held = mods.ctrl && mods.alt && mods.cmd;
            &&& r.post == Some(Msg::Engage) <==> held && keycode == 0x1F
            &&& r.post == Some(Msg::EngageFresh) <==> held && keycode == 0x0F
            &&& r.post == Some(Msg::SaveState) <==> held && keycode == 0x01 && intercepting
            &&& r.set_intercepting == Some(true) <==> held && (keycode == 0x1F || keycode == 0x0F)
        }),
{
    crate::keys::law_the_daemon_has_its_keys(keycode, mods);
}

/// Two rescue presses count as a pair if the second comes within two seconds of
/// the first, to the nanosecond; presses that come any later never do.
pub proof fn law_the_second_press_has_two_seconds(
    tap: Tap,
    keycode: u16,
    mods: Mods,
    first: u64,
    second: u64,
)
    requires
        tap.last_rescue is None,
        mods.ctrl && mods.alt && mods.cmd,
        keycode == 0x35,
        first <= second,
    ensures
        ({
            let press = TapInput::KeyDown { keycode, mods };
            let armed = tap.after(true, press, first);
            let done = armed.after(true, press, second);
            &&& tap.reply(true, press, first).post is None
            &&& tap.reply(true, press, first).swallow
            &&& armed.reply(true, press, second).post == Some(Msg::Rescue) <==> second - first
                <= 2_000_000_000
            &&& second - first <= 2_000_000_000 ==> done.last_rescue is None
            &&& second - first > 2_000_000_000 ==> done.last_rescue == Some(second)
        }),
{
}

/// A mouse-down is reported where it happened, and it and the in-app window
/// cycle are reported whether the daemon is on or off.
pub proof fn law_gestures_are_reported_as_made(
    tap: Tap,
    intercepting: bool,
    at: Point,
    keycode: u16,
    mods: Mods,
    now: u64,
)
    ensures
        tap.reply(intercepting, (TapInput::MouseDown { at }), now).post == Some(
            Msg::Gesture(Gesture::MouseDown { at }),
        ),
        tap.reply(intercepting, (TapInput::KeyDown { keycode, mods }), now).post == Some(
            Msg::Gesture(Gesture::SystemSwitch),
        ) <==> mods.cmd && !mods.alt && !mods.ctrl && keycode == 0x32,
        tap.reply(intercepting, (TapInput::FlagsChanged { mods }), now).post == Some(
            Msg::Gesture(Gesture::SystemSwitch),
        ) <==> tap.app_switcher_armed && !mods.cmd,
        tap.reply(intercepting, TapInput::Other, now).post is None,
        tap.reply(intercepting, TapInput::Disabled, now).post is None,
{
    crate::keys::law_system_chords_are_told_apart(keycode, mods);
    if crate::keys::witnessed(keycode, mods) is Some {
        crate::keys::law_witnessed_is_never_claimed(keycode, mods);
    }
}

/// The tap is switched back on exactly when the system switched it off.
pub proof fn law_a_disabled_tap_comes_back(
    tap: Tap,
    intercepting: bool,
    input: TapInput,
    now: u64,
)
    ensures
        tap.reply(intercepting, input, now).reenable <==> input is Disabled,
{
}

/// Only Cmd+Tab arms the app switcher, only letting go of Cmd disarms it, and
/// nothing but a rescue press while the daemon is on moves the rescue press
/// that is remembered.
pub proof fn law_the_tap_remembers_only_what_it_must(
    tap: Tap,
    intercepting: bool,
    input: TapInput,
    now: u64,
)
    ensures
        ({
            let then = tap.after(intercepting, input, now);
            let tab = input matches TapInput::KeyDown { keycode, mods } && mods.cmd && !mods.alt
                && !mods.ctrl && keycode == 0x30;
            let let_go = input matches TapInput::FlagsChanged { mods } && !mods.cmd;
            let rescue = input matches TapInput::KeyDown { keycode, mods } && mods.ctrl && mods.alt
                && mods.cmd && keycode == 0x35 && intercepting;
            &&& then.app_switcher_armed <==> tab || (tap.app_switcher_armed && !let_go)
            &&& !rescue ==> then.last_rescue == tap.last_rescue
        }),
{
    if let TapInput::KeyDown { keycode, mods } = input {
        crate::keys::law_the_daemon_has_its_keys(keycode, mods);
        crate::keys::law_system_chords_are_told_apart(keycode, mods);
        if crate::keys::witnessed(keycode, mods) is Some {
            crate::keys::law_witnessed_is_never_claimed(keycode, mods);
        }
    }
}

} // verus!
