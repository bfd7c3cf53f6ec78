//! The native workspace backend: workspaces are the system's own spaces.
//!
//! Switching presses the system's shortcut for moving one space left or right,
//! once per space to cross, on every display in turn. Whether it took is only
//! known from a fresh read, so a switch is driven, watched, and driven once
//! more before it is given up.

use crate::backend::{BackendError, BackendTopology, Capabilities};
use crate::platform::skylight::{
    find_display, fold_topology, resolve_monitor_id, window_workspaces, DisplaySpaces,
};
use crate::text::{around_number, decimal, owned, push_decimal};
use crate::vocab::{MonitorId, WindowId, WorkspaceId};
use vstd::prelude::*;

verus! {

/// The system offers at most this many spaces per display.
pub const MAX_SPACES_PER_DISPLAY: u8 = 16;

/// How often a switch is looked after before it counts as not having landed.
pub const POLLS: u8 = 10;

/// Milliseconds between two looks.
pub const POLL_MS: u64 = 200;

/// Presses to make on one display.
#[derive(Clone, Copy, Debug, PartialEq, Eq, Structural)]
pub struct Drive {
    /// Which of the displays known to put the pointer on.
    pub display: usize,
    /// Which way to go: -1 for left, 1 for right.
    pub direction: i64,
    /// How many spaces to cross.
    pub presses: u64,
}

/// Where the current space stands in the list, if it does.
pub open spec fn current_place(spaces: Seq<u64>, current: u64) -> Option<int>
    decreases spaces.len(),
{
    if spaces.len() == 0 {
        None
    } else if spaces[0] == current {
        Some(0int)
    } else {
        match current_place(spaces.skip(1), current) {
            Some(i) => Some(i + 1),
            None => None,
        }
    }
}

/// What it takes to bring one display to workspace `target`. A display that
/// does not have that many, that is there already, whose current space is not
/// in its list or that cannot be told is left alone.
pub open spec fn drive_for(
    d: DisplaySpaces,
    target: int,
    known: Seq<(MonitorId, bool)>,
) -> Option<Drive> {
    match current_place(d.spaces@, d.current_space) {
        None => None,
        Some(cur) => if target > d.spaces@.len() || target - 1 == cur {
            None
        } else {
            match crate::platform::skylight::resolved(d.identifier@, d.parsed, known) {
                None => None,
                Some(mon) => match crate::platform::skylight::place_of(known, mon) {
                    None => None,
                    Some(at) => Some(
                        Drive {
                            display: at as usize,
                            direction: if target - 1 > cur {
                                1
                            } else {
                                -1i64
                            },
                            presses: if target - 1 > cur {
                                (target - 1 - cur) as u64
                            } else {
                                (cur - (target - 1)) as u64
                            },
                        },
                    ),
                },
            }
        },
    }
}

/// What it takes to bring all displays there, in order.
pub open spec fn drives_for(
    displays: Seq<DisplaySpaces>,
    target: int,
    known: Seq<(MonitorId, bool)>,
) -> Seq<Drive>
    decreases displays.len(),
{
    if displays.len() == 0 {
        Seq::empty()
    } else {
        match drive_for(displays.last(), target, known) {
            Some(drive) => drives_for(displays.drop_last(), target, known).push(drive),
            None => drives_for(displays.drop_last(), target, known),
        }
    }
}

fn current_index(spaces: &Vec<u64>, current: u64) -> (r: Option<usize>)
    ensures
        r is Some <==> current_place(spaces@, current) is Some,
        r matches Some(i) ==> i < spaces@.len() && Some(i as int) == current_place(
            spaces@,
            current,
        ),
{
    let mut i: usize = 0;
    assert(spaces@.skip(0) =~= spaces@);
    while i < spaces.len()
        invariant
            i <= spaces.len(),
            current_place(spaces@, current) == (match current_place(
                spaces@.skip(i as int),
                current,
            ) {
                Some(j) => Some(j + i),
                None => None,
            }),
        decreases spaces.len() - i,
    {
        assert(spaces@.skip(i as int).skip(1) =~= spaces@.skip(i + 1));
        if spaces[i] == current {
            return Some(i);
        }
        i += 1;
    }
    None
}

/// Plan the presses that bring every display to its `target`th space. `known`
/// are the displays that the pointer can be put on.
pub fn drive_all_displays(
    target: WorkspaceId,
    displays: &Vec<DisplaySpaces>,
    known: &Vec<(MonitorId, bool)>,
) -> (r: Result<Vec<Drive>, BackendError>)
    ensures
        r is Err <==> target.0 == 0,
        r matches Err(e) ==> e.0@ == "workspace ordinals are 1-based"@,
        r matches Ok(drives) ==> drives@ == drives_for(displays@, target.0 as int, known@),
        r is Ok ==> forall|k: int|
            #![trigger r->Ok_0@[k]]
            0 <= k < r->Ok_0@.len() ==> r->Ok_0@[k].presses >= 1 && exists|i: int, cur: int|
                0 <= i < displays@.len() && #[trigger] lands(
                    displays@[i].spaces@,
                    displays@[i].current_space,
                    cur,
                    r->Ok_0@[k],
                    target.0 as int,
                ),
{
    let idx: usize = target.0 as usize;
    if idx == 0 {
        return Err(BackendError(owned("workspace ordinals are 1-based")));
    }
    let mut drives: Vec<Drive> = Vec::new();
    for i in 0..displays.len()
        invariant
            idx == target.0,
            idx >= 1,
            drives@ == drives_for(displays@.take(i as int), target.0 as int, known@),
    {
        assert(displays@.take(i + 1).drop_last() =~= displays@.take(i as int));
        let d = &displays[i];
        let drive = match current_index(&d.spaces, d.current_space) {
            None => None,
            Some(cur) => {
                if idx > d.spaces.len() || idx - 1 == cur {
                    None
                } else {
                    match resolve_monitor_id(d.identifier.as_str(), d.parsed, known) {
                        None => None,
                        Some(mon) => match find_display(known, mon) {
                            None => None,
                            Some(at) => {
                                if idx - 1 > cur {
                                    Some(
                                        Drive {
                                            display: at,
                                            direction: 1,
                                            presses: (idx - 1 - cur) as u64,
                                        },
                                    )
                                } else {
                                    Some(
                                        Drive {
                                            display: at,
                                            direction: -1,
                                            presses: (cur - (idx - 1)) as u64,
                                        },
                                    )
                                }
                            },
                        },
                    }
                }
            },
        };
        if let Some(drive) = drive {
            drives.push(drive);
        }
    }
    assert(displays@.take(displays@.len() as int) =~= displays@);
    assert(known.len() == known@.len());
    assert forall|k: int| #![trigger drives@[k]] 0 <= k < drives@.len() implies drives@[k].presses
        >= 1 && exists|
        i: int,
        cur: int,
    |
        0 <= i < displays@.len() && #[trigger] lands(
            displays@[i].spaces@,
            displays@[i].current_space,
            cur,
            drives@[k],
            target.0 as int,
        ) by {
        lemma_drives_land(displays@, target.0 as int, known@, k);
    }
    Ok(drives)
}

/// From place `cur` of the list, which the current space stands at, the presses
/// lead to the space of workspace `target`.
pub open spec fn lands(
    spaces: Seq<u64>,
    current: u64,
    cur: int,
    drive: Drive,
    target: int,
) -> bool {
    &&& 0 <= cur < spaces.len() && spaces[cur] == current
    &&& 1 <= target <= spaces.len()
    &&& drive.presses >= 1
    &&& drive.direction == 1 ==> cur + drive.presses == target - 1
    &&& drive.direction == -1 ==> cur - drive.presses == target - 1
    &&& drive.direction == 1 || drive.direction == -1
}

proof fn lemma_drives_land(
    displays: Seq<DisplaySpaces>,
    target: int,
    known: Seq<(MonitorId, bool)>,
    k: int,
)
    requires
        1 <= target,
        known.len() <= usize::MAX,
        0 <= k < drives_for(displays, target, known).len(),
    ensures
        exists|i: int, cur: int|
            0 <= i < displays.len() && #[trigger] lands(
                displays[i].spaces@,
                displays[i].current_space,
                cur,
                drives_for(displays, target, known)[k],
                target,
            ),
    decreases displays.len(),
{
    let init = displays.drop_last();
    let d = displays.last();
    let drives = drives_for(displays, target, known);
    let before = drives_for(init, target, known);
    assert(d == displays[displays.len() - 1]);
    if k < before.len() {
        lemma_drives_land(init, target, known, k);
        let (i, cur) = choose|i: int, cur: int|
            0 <= i < init.len() && #[trigger] lands(
                init[i].spaces@,
                init[i].current_space,
                cur,
                before[k],
                target,
            );
        assert(init[i] == displays[i]);
        assert(lands(displays[i].spaces@, displays[i].current_space, cur, drives[k], target));
    } else {
        law_presses_land_on_the_target(d, target, known);
        let drive = drives[k];
        let cur = choose|cur: int|
            0 <= cur < d.spaces@.len() && #[trigger] d.spaces@[cur] == d.current_space && lands(
                d.spaces@,
                d.current_space,
                cur,
                drive,
                target,
            );
        assert(lands(
            displays[displays.len() - 1].spaces@,
            d.current_space,
            cur,
            drives[k],
            target,
        ));
    }
}

/// Making the presses lands on the target: from where the current space first
/// stands in the display's list, going the way and as far as was planned leads to
/// the place of the target, and the pointer is put on the display that was meant.
/// No press is planned that leads nowhere, and none is left out where the display
/// has the target and shows another space of its own.
pub proof fn law_presses_land_on_the_target(
    d: DisplaySpaces,
    target: int,
    known: Seq<(MonitorId, bool)>,
)
    requires
        1 <= target,
        known.len() <= usize::MAX,
    ensures
        drive_for(d, target, known) matches Some(drive) ==> exists|cur: int|
            0 <= cur < d.spaces@.len() && #[trigger] d.spaces@[cur] == d.current_space && (forall|
                j: int,
            |
                0 <= j < cur ==> d.spaces@[j] != d.current_space) && cur + drive.direction
                * drive.presses == target - 1 && drive.presses >= 1 && (drive.direction == 1
                || drive.direction == -1) && lands(
                d.spaces@,
                d.current_space,
                cur,
                drive,
                target,
            ),
        drive_for(d, target, known) matches Some(drive) ==> drive.display < known.len()
            && crate::platform::skylight::resolved(d.identifier@, d.parsed, known) == Some(
            known[drive.display as int].0,
        ),
        drive_for(d, target, known) is None && 1 <= target <= d.spaces@.len()
            && d.spaces@.contains(d.current_space) && crate::platform::skylight::resolved(
            d.identifier@,
            d.parsed,
            known,
        ) is Some ==> d.spaces@[target - 1] == d.current_space,
{
    assert(d.spaces.len() == d.spaces@.len());
    lemma_current_place(d.spaces@, d.current_space);
    lemma_current_place_first(d.spaces@, d.current_space);
    let mon = crate::platform::skylight::resolved(d.identifier@, d.parsed, known);
    if mon is Some {
        crate::platform::skylight::law_resolved_display_is_known(d.identifier@, d.parsed, known);
        crate::platform::skylight::law_a_display_stands_where_its_number_is(known, mon->Some_0);
    }
    if let Some(drive) = drive_for(d, target, known) {
        let cur = current_place(d.spaces@, d.current_space)->Some_0;
        assert(d.spaces@[cur] == d.current_space);
        assert(cur + drive.direction * drive.presses == target - 1) by (nonlinear_arith)
            requires
                (drive.direction == 1 && drive.presses == target - 1 - cur) || (drive.direction
                    == -1 && drive.presses == cur - (target - 1)),
        ;
    }
}

proof fn lemma_current_place_first(spaces: Seq<u64>, current: u64)
    ensures
        current_place(spaces, current) matches Some(i) ==> forall|j: int|
            0 <= j < i ==> spaces[j] != current,
        current_place(spaces, current) is None ==> !spaces.contains(current),
    decreases spaces.len(),
{
    if spaces.len() > 0 && spaces[0] != current {
        let rest = spaces.skip(1);
        lemma_current_place(spaces, current);
        lemma_current_place_first(rest, current);
        if let Some(i) = current_place(spaces, current) {
            assert forall|j: int| 0 <= j < i implies spaces[j] != current by {
                if j > 0 {
                    assert(rest[j - 1] == spaces[j]);
                }
            }
        } else if spaces.contains(current) {
            let j = choose|j: int| 0 <= j < spaces.len() && spaces[j] == current;
            assert(rest[j - 1] == current);
        }
    }
}

/// The displays are driven one after the other, each on its own account: a display
/// that needs no press makes no difference to the others.
pub proof fn law_every_display_is_driven_in_turn(
    a: Seq<DisplaySpaces>,
    b: Seq<DisplaySpaces>,
    d: DisplaySpaces,
    target: int,
    known: Seq<(MonitorId, bool)>,
)
    ensures
        drives_for(a + b, target, known) == drives_for(a, target, known) + drives_for(
            b,
            target,
            known,
        ),
        drives_for(seq![d], target, known).len() <= 1,
        drives_for(seq![d], target, known).len() == 1 <==> drive_for(d, target, known) is Some,
        drive_for(d, target, known) matches Some(drive) ==> drives_for(seq![d], target, known)[0]
            == drive,
    decreases b.len(),
{
    reveal_with_fuel(drives_for, 2);
    assert(seq![d].drop_last() =~= Seq::<DisplaySpaces>::empty());
    if b.len() == 0 {
        assert(a + b =~= a);
        assert(drives_for(a, target, known) + drives_for(b, target, known) =~= drives_for(
            a,
            target,
            known,
        ));
    } else {
        assert((a + b).drop_last() =~= a + b.drop_last());
        law_every_display_is_driven_in_turn(a, b.drop_last(), d, target, known);
        assert(drives_for(a + b, target, known) =~= drives_for(a, target, known) + drives_for(
            b,
            target,
            known,
        ));
    }
}

/// The space that is workspace `target` of a display.
pub open spec fn space_for(spaces: Seq<u64>, target: int) -> Option<u64> {
    if 1 <= target <= spaces.len() {
        Some(spaces[target - 1])
    } else {
        None
    }
}

fn space_at(spaces: &Vec<u64>, target: WorkspaceId) -> (r: Option<u64>)
    ensures
        r == space_for(spaces@, target.0 as int),
{
    let idx: usize = target.0 as usize;
    if idx >= 1 && idx <= spaces.len() {
        Some(spaces[idx - 1])
    } else {
        None
    }
}

/// Every display shows workspace `target`, apart from those that have none of
/// that ordinal. With no display to be seen nothing has arrived.
pub open spec fn has_arrived(displays: Seq<DisplaySpaces>, target: int) -> bool {
    displays.len() > 0 && forall|i: int|
        0 <= i < displays.len() ==> (space_for((#[trigger] displays[i]).spaces@, target) matches Some(
            space,
        ) ==> space == displays[i].current_space)
}

/// Whether the displays, freshly read, show workspace `target`.
pub fn arrived(displays: &Vec<DisplaySpaces>, target: WorkspaceId) -> (r: bool)
    ensures
        r == has_arrived(displays@, target.0 as int),
        r ==> forall|i: int|
            0 <= i < displays@.len() && 1 <= target.0 <= (#[trigger] displays@[i]).spaces@.len()
                ==> displays@[i].current_space == displays@[i].spaces@[target.0 - 1],
        !r ==> displays@.len() == 0 || exists|i: int|
            0 <= i < displays@.len() && 1 <= target.0 <= (#[trigger] displays@[i]).spaces@.len()
                && displays@[i].current_space != displays@[i].spaces@[target.0 - 1],
{
    if displays.len() == 0 {
        return false;
    }
    for i in 0..displays.len()
        invariant
            displays@.len() > 0,
            forall|j: int|
                0 <= j < i ==> (space_for(
                    (#[trigger] displays@[j]).spaces@,
                    target.0 as int,
                ) matches Some(space) ==> space == displays@[j].current_space),
    {
        if let Some(space) = space_at(&displays[i].spaces, target) {
            if space != displays[i].current_space {
                assert(displays@[i as int].current_space != space);
                return false;
            }
        }
    }
    true
}

/// Where nothing needs pressing, a switch has arrived; and a switch that has
/// arrived needs no press. That holds of displays whose current space is in
/// their list once and that can be told.
pub proof fn law_arrived_iff_nothing_to_press(
    displays: Seq<DisplaySpaces>,
    target: int,
    known: Seq<(MonitorId, bool)>,
)
    requires
        target >= 1,
        displays.len() > 0,
        forall|i: int|
            #![trigger displays[i]]
            0 <= i < displays.len() ==> {
                let d = displays[i];
                &&& current_place(d.spaces@, d.current_space) is Some
                &&& crate::platform::skylight::resolved(d.identifier@, d.parsed, known) is Some
                &&& forall|a: int, b: int|
                    0 <= a < b < d.spaces@.len() ==> d.spaces@[a] != d.spaces@[b]
            },
    ensures
        has_arrived(displays, target) <==> drives_for(displays, target, known) == Seq::<
            Drive,
        >::empty(),
{
    lemma_arrived(displays, target, known);
    if has_arrived(displays, target) {
        assert(drives_for(displays, target, known) =~= Seq::<Drive>::empty());
    }
}

proof fn lemma_arrived(
    displays: Seq<DisplaySpaces>,
    target: int,
    known: Seq<(MonitorId, bool)>,
)
    requires
        target >= 1,
        forall|i: int|
            #![trigger displays[i]]
            0 <= i < displays.len() ==> {
                let d = displays[i];
                &&& current_place(d.spaces@, d.current_space) is Some
                &&& crate::platform::skylight::resolved(d.identifier@, d.parsed, known) is Some
                &&& forall|a: int, b: int|
                    0 <= a < b < d.spaces@.len() ==> d.spaces@[a] != d.spaces@[b]
            },
    ensures
        (displays.len() == 0 || has_arrived(displays, target)) <==> drives_for(
            displays,
            target,
            known,
        ).len() == 0,
    decreases displays.len(),
{
    if displays.len() > 0 {
        let init = displays.drop_last();
        let d = displays.last();
        assert(d == displays[displays.len() - 1]);
        assert forall|i: int| #![trigger init[i]] 0 <= i < init.len() implies init[i]
            == displays[i] by {}
        assert forall|i: int| #![trigger init[i]] 0 <= i < init.len() implies {
            let d = init[i];
            &&& current_place(d.spaces@, d.current_space) is Some
            &&& crate::platform::skylight::resolved(d.identifier@, d.parsed, known) is Some
            &&& forall|a: int, b: int|
                0 <= a < b < d.spaces@.len() ==> d.spaces@[a] != d.spaces@[b]
        } by {
            assert(displays[i] == init[i]);
        }
        lemma_arrived(init, target, known);
        lemma_current_place(d.spaces@, d.current_space);
        crate::platform::skylight::law_resolved_display_is_known(d.identifier@, d.parsed, known);
        let cur = current_place(d.spaces@, d.current_space)->Some_0;
        let here = space_for(d.spaces@, target) matches Some(space) ==> space == d.current_space;
        assert(here <==> drive_for(d, target, known) is None) by {
            if 1 <= target <= d.spaces@.len() && d.spaces@[target - 1] == d.current_space {
                if target - 1 < cur {
                    assert(d.spaces@[target - 1] != d.spaces@[cur]);
                } else if cur < target - 1 {
                    assert(d.spaces@[cur] != d.spaces@[target - 1]);
                }
            }
        }
        if has_arrived(displays, target) {
            assert forall|i: int| 0 <= i < init.len() implies (space_for(
                (#[trigger] init[i]).spaces@,
                target,
            ) matches Some(space) ==> space == init[i].current_space) by {
                assert(displays[i] == init[i]);
            }
        }
        if (init.len() == 0 || has_arrived(init, target)) && here {
            assert forall|i: int| 0 <= i < displays.len() implies (space_for(
                (#[trigger] displays[i]).spaces@,
                target,
            ) matches Some(space) ==> space == displays[i].current_space) by {
                if i < init.len() {
                    assert(displays[i] == init[i]);
                }
            }
        }
    }
}

proof fn lemma_current_place(spaces: Seq<u64>, current: u64)
    ensures
        current_place(spaces, current) matches Some(i) ==> 0 <= i < spaces.len() && spaces[i]
            == current,
    decreases spaces.len(),
{
    if spaces.len() > 0 && spaces[0] != current {
        lemma_current_place(spaces.skip(1), current);
    }
}

// --- switching -----------------------------------------------------------------

/// What a switch does next.
#[derive(Debug)]
pub enum SwitchStep {
    /// Press the shortcuts; see [`drive_all_displays`].
    Drive,
    /// Read the displays; see [`arrived`].
    Look,
    /// Wait [`POLL_MS`], then read the displays.
    WaitAndLook,
    /// Wait [`POLL_MS`], then press the shortcuts again.
    WaitAndDrive,
    /// The switch is over.
    Finish(Result<(), BackendError>),
    /// Wait, and give the switch up.
    WaitAndGiveUp(BackendError),
}

/// A switch under way.
#[derive(Clone, Copy, Debug, PartialEq, Eq, Structural)]
pub struct Switching {
    pub target: WorkspaceId,
    /// It has been driven a second time: a press can land in the middle of an
    /// animation and be dropped.
    pub retried: bool,
    /// Looks taken since it was last driven.
    pub looks: u8,
}

/// Why a switch was given up.
pub open spec fn not_reached(target: WorkspaceId) -> Seq<char> {
    "workspace "@ + decimal(target.0 as nat)
        + " not reached after retry (are Mission Control's \"Move left/right a space\" shortcuts enabled and bound to Ctrl+Alt+Cmd+arrows?)"@
}

impl Switching {
    /// A switch that is about to be driven.
    pub fn start(target: WorkspaceId) -> (r: Switching)
        ensures
            r == (Switching { target, retried: false, looks: 0 }),
    {
        Switching { target, retried: false, looks: 0 }
    }

    /// No more looks have been taken than are.
    pub open spec fn wf(self) -> bool {
        self.looks < POLLS
    }

    /// How many more looks there can be.
    pub open spec fn looks_left(self) -> int {
        POLLS - self.looks + (if self.retried {
            0int
        } else {
            POLLS as int
        })
    }

    /// The presses were made, or could not be.
    pub fn driven(&mut self, result: Result<(), BackendError>) -> (r: SwitchStep)
        requires
            old(self).wf(),
        ensures
            final(self).wf(),
            *final(self) == (Switching { looks: 0, ..*old(self) }),
            match result {
                Ok(()) => r is Look,
                Err(e) => r == SwitchStep::Finish(Err(e)),
            },
    {
        self.looks = 0;
        match result {
            Ok(()) => SwitchStep::Look,
            Err(e) => SwitchStep::Finish(Err(e)),
        }
    }

    /// The displays were read.
    pub fn looked(&mut self, arrived: bool) -> (r: SwitchStep)
        requires
            old(self).wf(),
        ensures
            final(self).wf(),
            arrived ==> r == SwitchStep::Finish(Ok(())) && *final(self) == *old(self),
            !arrived && old(self).looks + 1 < POLLS ==> r is WaitAndLook && *final(self) == (
            Switching { looks: (old(self).looks + 1) as u8, ..*old(self) }),
            !arrived && old(self).looks + 1 == POLLS && !old(self).retried ==> r is WaitAndDrive
                && *final(self) == (Switching { retried: true, looks: 0, ..*old(self) }),
            !arrived && old(self).looks + 1 == POLLS && old(self).retried ==> {
                &&& *final(self) == *old(self)
                &&& r matches SwitchStep::WaitAndGiveUp(e)
                &&& e.0@ == not_reached(old(self).target)
            },
            r is Finish || r is WaitAndGiveUp || final(self).looks_left() < old(self).looks_left(),
            r is Finish <==> arrived,
            r is WaitAndLook <==> !arrived && old(self).looks < 9,
            r is WaitAndDrive <==> !arrived && old(self).looks == 9 && !old(self).retried,
            r is WaitAndGiveUp <==> !arrived && old(self).looks == 9 && old(self).retried,
            r matches SwitchStep::WaitAndGiveUp(e) ==> e.0@ == "workspace "@ + decimal(
                old(self).target.0 as nat,
            )
                + " not reached after retry (are Mission Control's \"Move left/right a space\" shortcuts enabled and bound to Ctrl+Alt+Cmd+arrows?)"@,
    {
        if arrived {
            return SwitchStep::Finish(Ok(()));
        }
        if self.looks + 1 < POLLS {
            self.looks = self.looks + 1;
            return SwitchStep::WaitAndLook;
        }
        if !self.retried {
            self.retried = true;
            self.looks = 0;
            return SwitchStep::WaitAndDrive;
        }
        SwitchStep::WaitAndGiveUp(
            BackendError(
                around_number(
                    "workspace ",
                    self.target.0 as u64,
                    " not reached after retry (are Mission Control's \"Move left/right a space\" shortcuts enabled and bound to Ctrl+Alt+Cmd+arrows?)",
                ),
            ),
        )
    }
}

// --- windows ----------------------------------------------------------------------

/// The first display that has the space.
pub open spec fn display_with(displays: Seq<DisplaySpaces>, space: u64) -> Option<int>
    decreases displays.len(),
{
    if displays.len() == 0 {
        None
    } else if display_with(displays.drop_last(), space) is Some {
        display_with(displays.drop_last(), space)
    } else if displays.last().spaces@.contains(space) {
        Some(displays.len() - 1)
    } else {
        None
    }
}

fn holds(spaces: &Vec<u64>, space: u64) -> (r: bool)
    ensures
        r == spaces@.contains(space),
{
    for i in 0..spaces.len()
        invariant
            forall|j: int| 0 <= j < i ==> spaces@[j] != space,
    {
        if spaces[i] == space {
            assert(spaces@[i as int] == space);
            return true;
        }
    }
    false
}

fn find_space(displays: &Vec<DisplaySpaces>, space: u64) -> (r: Option<usize>)
    ensures
        r is Some <==> display_with(displays@, space) is Some,
        r matches Some(i) ==> i < displays@.len() && Some(i as int) == display_with(
            displays@,
            space,
        ),
{
    for i in 0..displays.len()
        invariant
            display_with(displays@.take(i as int), space) is None,
    {
        assert(displays@.take(i + 1).drop_last() =~= displays@.take(i as int));
        if holds(&displays[i].spaces, space) {
            proof {
                lemma_display_stays(displays@, space, i + 1);
            }
            return Some(i);
        }
    }
    assert(displays@.take(displays@.len() as int) =~= displays@);
    None
}

proof fn lemma_display_stays(displays: Seq<DisplaySpaces>, space: u64, n: int)
    requires
        0 <= n <= displays.len(),
        display_with(displays.take(n), space) is Some,
    ensures
        display_with(displays, space) == display_with(displays.take(n), space),
    decreases displays.len(),
{
    if n == displays.len() {
        assert(displays.take(n) =~= displays);
    } else {
        assert(displays.drop_last().take(n) =~= displays.take(n));
        lemma_display_stays(displays.drop_last(), space, n);
    }
}

/// The space that is workspace `target` of the display that holds a window on
/// space `home`.
pub open spec fn destination(
    home: Option<u64>,
    displays: Seq<DisplaySpaces>,
    target: WorkspaceId,
) -> Option<u64> {
    match home {
        None => None,
        Some(home) => match display_with(displays, home) {
            None => None,
            Some(i) => space_for(displays[i].spaces@, target.0 as int),
        },
    }
}

/// The space that is workspace `target` of the display that holds a window on
/// space `home`.
pub fn target_space_for_window(
    home: Option<u64>,
    displays: &Vec<DisplaySpaces>,
    target: WorkspaceId,
) -> (r: Option<u64>)
    ensures
        r == destination(home, displays@, target),
        r matches Some(space) ==> stays(home, displays@, target, space),
{
    proof {
        law_a_window_stays_on_its_display(home, displays@, target, 0);
    }
    match home {
        None => None,
        Some(home) => match find_space(displays, home) {
            None => None,
            Some(i) => space_at(&displays[i].spaces, target),
        },
    }
}

/// `space` is the `target`th of the spaces of a display that has the space the
/// window is at home on.
pub open spec fn stays(
    home: Option<u64>,
    displays: Seq<DisplaySpaces>,
    target: WorkspaceId,
    space: u64,
) -> bool {
    home is Some && exists|i: int|
        0 <= i < displays.len() && (#[trigger] displays[i]).spaces@.contains(home->Some_0) && 1
            <= target.0 <= displays[i].spaces@.len() && displays[i].spaces@[target.0 - 1] == space
}

/// A window stays on its display: the space it is to be moved to stands at the
/// target's place in the very list that holds the space it is on. There is such a
/// space whenever the first display that has the window's space has as many.
pub proof fn law_a_window_stays_on_its_display(
    home: Option<u64>,
    displays: Seq<DisplaySpaces>,
    target: WorkspaceId,
    k: int,
)
    ensures
        destination(home, displays, target) matches Some(space) ==> home is Some && exists|i: int|
            0 <= i < displays.len() && (#[trigger] displays[i]).spaces@.contains(home->Some_0) && 1
                <= target.0 <= displays[i].spaces@.len() && displays[i].spaces@[target.0 - 1]
                == space,
        home is Some && 0 <= k < displays.len() && displays[k].spaces@.contains(home->Some_0) && (
        forall|j: int|
            0 <= j < k ==> !(#[trigger] displays[j]).spaces@.contains(
                home->Some_0,
            )) && 1 <= target.0 <= displays[k].spaces@.len() ==> destination(
            home,
            displays,
            target,
        ) == Some(displays[k].spaces@[target.0 - 1]),
{
    if home is Some {
        law_a_space_is_found_on_its_display(displays, home->Some_0);
    }
}

/// A space is found on the first display that has it, and on none if none has.
pub proof fn law_a_space_is_found_on_its_display(displays: Seq<DisplaySpaces>, space: u64)
    ensures
        display_with(displays, space) matches Some(i) ==> 0 <= i < displays.len()
            && displays[i].spaces@.contains(space) && forall|j: int|
            0 <= j < i ==> !(#[trigger] displays[j]).spaces@.contains(space),
        display_with(displays, space) is None ==> forall|j: int|
            0 <= j < displays.len() ==> !(#[trigger] displays[j]).spaces@.contains(space),
    decreases displays.len(),
{
    if displays.len() > 0 {
        let init = displays.drop_last();
        law_a_space_is_found_on_its_display(init, space);
        assert forall|j: int| 0 <= j < init.len() implies #[trigger] displays[j] == init[j] by {}
    }
}

/// Decide where to move a window that is on space `home`.
pub fn plan_move(
    window: WindowId,
    target: WorkspaceId,
    home: Option<u64>,
    displays: &Vec<DisplaySpaces>,
) -> (r: Result<u64, BackendError>)
    ensures
        r is Ok <==> destination(home, displays@, target) is Some,
        r matches Ok(space) ==> destination(home, displays@, target) == Some(space),
        r matches Ok(space) ==> stays(home, displays@, target, space),
        r matches Err(e) ==> e.0@ == "no space "@ + decimal(target.0 as nat) + " on window "@
            + decimal(window.0 as nat) + "'s display"@,
{
    match target_space_for_window(home, displays, target) {
        Some(space) => Ok(space),
        None => {
            let mut text = around_number("no space ", target.0 as u64, " on window ");
            push_decimal(&mut text, window.0 as u64);
            text.append("'s display");
            Err(BackendError(text))
        },
    }
}

/// Judge a move by where the window is now: the move itself can be without
/// effect and does not say so.
pub fn verify_move(space: u64, now: Option<u64>) -> (r: Result<(), BackendError>)
    ensures
        r is Ok <==> now == Some(space),
        r matches Err(e) ==> e.0@
            == "window did not move (SLSMoveWindowsToManagedSpace may be restricted on this macOS; consider the emulated backend)"@,
{
    match now {
        Some(at) if at == space => Ok(()),
        _ => Err(
            BackendError(
                owned(
                    "window did not move (SLSMoveWindowsToManagedSpace may be restricted on this macOS; consider the emulated backend)",
                ),
            ),
        ),
    }
}

/// Decide where to put a window that is on space `home` so that it is seen: the
/// space its display is showing.
pub fn rescue_window(window: WindowId, home: Option<u64>, displays: &Vec<DisplaySpaces>) -> (r:
    Result<u64, BackendError>)
    ensures
        match home {
            Some(home) => match display_with(displays@, home) {
                Some(i) => r == Ok::<u64, BackendError>(displays@[i].current_space),
                None => r is Err,
            },
            None => r is Err,
        },
        r matches Err(e) ==> e.0@ == "window "@ + decimal(window.0 as nat) + " not located"@,
        r matches Ok(space) ==> home is Some && exists|i: int|
            0 <= i < displays@.len() && (#[trigger] displays@[i]).spaces@.contains(home->Some_0)
                && displays@[i].current_space == space,
        r is Err ==> home is None || forall|i: int|
            0 <= i < displays@.len() ==> !(#[trigger] displays@[i]).spaces@.contains(home->Some_0),
{
    proof {
        if home is Some {
            law_a_space_is_found_on_its_display(displays@, home->Some_0);
        }
    }
    if let Some(home) = home {
        if let Some(i) = find_space(displays, home) {
            return Ok(displays[i].current_space);
        }
    }
    Err(BackendError(around_number("window ", window.0 as u64, " not located")))
}

/// The workspaces, from the displays and the spaces the windows are at home on.
pub fn topology(
    displays: &Vec<DisplaySpaces>,
    known: &Vec<(MonitorId, bool)>,
    windows: &Vec<WindowId>,
    homes: &Vec<Option<u64>>,
) -> (r: BackendTopology)
    ensures
        ({
            let folded = crate::platform::skylight::folded(displays@, known@);
            &&& r.monitors@ == folded.per_monitor
            &&& r.window_ws@ == crate::platform::skylight::placed(
                windows@,
                homes@,
                folded.space_to_ordinal,
                (if homes@.len() <= windows@.len() {
                    homes@.len() as int
                } else {
                    windows@.len() as int
                }),
            )
            &&& r.virtual_monitors is None
        }),
{
    let folded = fold_topology(displays, known);
    let window_ws = window_workspaces(windows, homes, &folded.space_to_ordinal);
    BackendTopology { monitors: folded.per_monitor, window_ws, virtual_monitors: None }
}

/// The user makes and removes spaces, not the daemon.
pub fn capabilities() -> (r: Capabilities)
    ensures
        r == (Capabilities {
            fixed_workspace_count: true,
            max_workspaces: MAX_SPACES_PER_DISPLAY,
        }),
        r.fixed_workspace_count,
        r.max_workspaces == 16,
{
    Capabilities { fixed_workspace_count: true, max_workspaces: MAX_SPACES_PER_DISPLAY }
}

/// A switch that does not land is looked after twenty times in all, ten for each
/// time it is driven, and one look fewer with every look.
pub proof fn law_a_switch_is_looked_after_twenty_times(s: Switching)
    requires
        s.wf(),
    ensures
        s.looks < 10,
        !s.retried ==> s.looks_left() == 20 - s.looks,
        s.retried ==> s.looks_left() == 10 - s.looks,
{
}

/// A switch has arrived exactly if there is a display, and every display that has
/// the target shows it.
pub proof fn law_arrived_means_shown_everywhere(displays: Seq<DisplaySpaces>, target: int)
    ensures
        has_arrived(displays, target) <==> displays.len() > 0 && forall|i: int|
            0 <= i < displays.len() && 1 <= target <= (#[trigger] displays[i]).spaces@.len()
                ==> displays[i].spaces@[target - 1] == displays[i].current_space,
{
    if has_arrived(displays, target) {
        assert forall|i: int|
            0 <= i < displays.len() && 1 <= target <= (
            #[trigger] displays[i]).spaces@.len() implies displays[i].spaces@[target - 1]
            == displays[i].current_space by {
            assert(space_for(displays[i].spaces@, target) is Some);
        }
    }
}

} // verus!
