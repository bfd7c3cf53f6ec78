//! Switching spaces by pressing the system's own shortcut.
//!
//! The shortcut acts on the display under the pointer. It is held with
//! Ctrl+Alt+Cmd, so the tap sees these presses and lets them through.

use crate::keys::{code, Mods};
use vstd::prelude::*;

verus! {

/// Milliseconds between two presses: one that lands in the middle of an
/// animation is dropped.
pub const PRESS_GAP_MS: u64 = 350;

/// Milliseconds after a key goes down or up.
pub const KEY_MS: u64 = 30;

/// The modifiers the shortcut is held with.
pub open spec fn lever_mods() -> Mods {
    Mods { cmd: true, alt: true, shift: false, ctrl: true }
}

/// One part of a switch.
#[derive(Clone, Copy, Debug, PartialEq, Eq, Structural)]
pub enum Pull {
    /// Wait for [`PRESS_GAP_MS`].
    Gap,
    /// Press this key.
    Press(u16),
}

/// The key that moves towards `direction`.
pub open spec fn lever(direction: i64) -> u16 {
    if direction >= 0 {
        code::RIGHT
    } else {
        code::LEFT
    }
}

/// `times` presses with a gap between each two.
pub open spec fn pulls(direction: i64, times: nat) -> Seq<Pull>
    decreases times,
{
    if times == 0 {
        Seq::empty()
    } else if times == 1 {
        seq![Pull::Press(lever(direction))]
    } else {
        pulls(direction, (times - 1) as nat) + seq![Pull::Gap, Pull::Press(lever(direction))]
    }
}

/// Move `times` spaces towards `direction`: right unless it is negative.
pub fn switch(direction: i64, times: u64) -> (r: Vec<Pull>)
    ensures
        r@ == pulls(direction, times as nat),
        times == 0 <==> r@.len() == 0,
        times > 0 ==> r@.len() == 2 * times - 1,
{
    proof {
        lemma_pulls_len(direction, times as nat);
    }
    let key: u16 = if direction >= 0 {
        code::RIGHT
    } else {
        code::LEFT
    };
    let mut out: Vec<Pull> = Vec::new();
    let mut i: u64 = 0;
    while i < times
        invariant
            i <= times,
            key == lever(direction),
            out@ == pulls(direction, i as nat),
        decreases times - i,
    {
        if i > 0 {
            out.push(Pull::Gap);
        }
        out.push(Pull::Press(key));
        i += 1;
        assert(out@ =~= pulls(direction, i as nat));
    }
    out
}

/// The presses are the daemon's own and never come back to it as a chord.
pub proof fn law_presses_pass_the_tap(direction: i64)
    ensures
        crate::keys::binding(lever(direction), lever_mods()) is None,
        crate::keys::witnessed(lever(direction), lever_mods()) is None,
{
}

/// The presses asked for are made, every one of them and no more: right for a
/// direction that is not negative, else left, with one gap between each two.
pub proof fn law_as_many_presses_as_asked(direction: i64, times: nat, i: int)
    requires
        0 <= i < pulls(direction, times).len(),
    ensures
        pulls(direction, times).len() == 2 * times - 1,
        i % 2 == 0 ==> pulls(direction, times)[i] == Pull::Press(
            if direction >= 0 {
                0x7C
            } else {
                0x7B
            },
        ),
        i % 2 == 1 ==> pulls(direction, times)[i] == Pull::Gap,
    decreases times,
{
    lemma_pulls_len(direction, times);
    if times > 1 {
        lemma_pulls_len(direction, (times - 1) as nat);
        if i < 2 * times - 3 {
            law_as_many_presses_as_asked(direction, (times - 1) as nat, i);
        }
    }
}

proof fn lemma_pulls_len(direction: i64, times: nat)
    ensures
        pulls(direction, times).len() == (if times == 0 {
            0
        } else {
            2 * times - 1
        }),
    decreases times,
{
    if times > 1 {
        lemma_pulls_len(direction, (times - 1) as nat);
    }
}

} // verus!
