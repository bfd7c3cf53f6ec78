//! The monitors diagram in the menu: a tile per virtual monitor, and over them
//! a frame for the physical displays.
//!
//! While some monitor is spare, a tile can be dragged onto another to merge the
//! two. The drop asks first, because a merge renumbers monitors on every
//! workspace. The plus after the last tile adds a monitor without asking: there
//! is nothing to confirm about an empty one.
//!
//! The layout is in whole points, so a point of the screen is a point of the
//! layout once it is rounded down.

use crate::menubar::{MonitorEntry, MonitorsView};
use crate::text::{around_number, decimal, join_first, joined, owned, push_decimal, texts};
use crate::vocab::HotkeyAction;
use vstd::prelude::*;

verus! {

pub const MARGIN_X: i64 = 20;

pub const TOP: i64 = 4;

pub const TILE_W: i64 = 72;

pub const TILE_H: i64 = 42;

pub const TILE_GAP: i64 = 10;

/// From the left edge of one tile to that of the next.
pub const TILE_PITCH: i64 = 82;

pub const FRAME_PAD: i64 = 5;

pub const BOTTOM: i64 = 6;

pub const ADD_W: i64 = 28;

/// Windows shown as dots before the row stops growing.
pub const MAX_DOTS: usize = 6;

/// More monitors than anyone numbers with a byte.
pub const MAX_TILES: usize = 256;

// --- layout ------------------------------------------------------------------------

/// The left edge of tile `i`.
pub open spec fn tile_left(i: int) -> int {
    MARGIN_X + FRAME_PAD + i * TILE_PITCH
}

/// A point is on the row of tiles, `w` points wide from `left` on.
pub open spec fn covers(left: int, w: int, x: int, y: int) -> bool {
    left <= x < left + w && TOP + FRAME_PAD <= y < TOP + FRAME_PAD + TILE_H
}

/// Tile `i` covers the point.
pub open spec fn on_tile(i: int, x: int, y: int) -> bool {
    covers(tile_left(i), TILE_W as int, x, y)
}

/// The plus after `n` tiles covers the point.
pub open spec fn on_plus(n: int, x: int, y: int) -> bool {
    covers(tile_left(n), ADD_W as int, x, y)
}

/// The left edge of tile `i`, which is where the plus sits after `i` tiles.
pub fn tile_x(i: usize) -> (r: i64)
    requires
        i <= MAX_TILES,
    ensures
        r == tile_left(i as int),
{
    MARGIN_X + FRAME_PAD + i as i64 * TILE_PITCH
}

/// The tile under a point, of `n`.
pub fn tile_at(n: usize, x: i64, y: i64) -> (r: Option<usize>)
    requires
        n <= MAX_TILES,
    ensures
        r matches Some(i) ==> i < n && on_tile(i as int, x as int, y as int),
        r is None ==> forall|i: int| 0 <= i < n ==> !#[trigger] on_tile(i, x as int, y as int),
{
    for i in 0..n
        invariant
            n <= MAX_TILES,
            forall|j: int| 0 <= j < i ==> !#[trigger] on_tile(j, x as int, y as int),
    {
        let left: i64 = tile_x(i);
        if x >= left && x < left + TILE_W && y >= TOP + FRAME_PAD && y < TOP + FRAME_PAD + TILE_H {
            return Some(i);
        }
    }
    None
}

/// Whether the plus after `n` tiles is under a point.
pub fn plus_at(n: usize, x: i64, y: i64) -> (r: bool)
    requires
        n <= MAX_TILES,
    ensures
        r == on_plus(n as int, x as int, y as int),
{
    let left: i64 = tile_x(n);
    x >= left && x < left + ADD_W && y >= TOP + FRAME_PAD && y < TOP + FRAME_PAD + TILE_H
}

/// A point is on one tile at most, and never on a tile and the plus at once.
pub proof fn law_tiles_do_not_overlap(n: int, i: int, j: int, x: int, y: int)
    requires
        0 <= i < n,
        0 <= j < n,
        on_tile(i, x, y),
    ensures
        on_tile(j, x, y) ==> i == j,
        !on_plus(n, x, y),
{
    assert(i <= j - 1 ==> i * 82 + 82 <= j * 82) by (nonlinear_arith);
    assert(j <= i - 1 ==> j * 82 + 82 <= i * 82) by (nonlinear_arith);
    assert(i <= n - 1 ==> i * 82 + 82 <= n * 82) by (nonlinear_arith);
}

// --- what is shown -----------------------------------------------------------------

/// The first monitor on a display.
pub open spec fn first_hosted(monitors: Seq<MonitorEntry>) -> Option<int>
    decreases monitors.len(),
{
    if monitors.len() == 0 {
        None
    } else if first_hosted(monitors.drop_last()) is Some {
        first_hosted(monitors.drop_last())
    } else if monitors.last().display is Some {
        Some(monitors.len() - 1)
    } else {
        None
    }
}

/// The last monitor on a display.
pub open spec fn last_hosted(monitors: Seq<MonitorEntry>) -> Option<int>
    decreases monitors.len(),
{
    if monitors.len() == 0 {
        None
    } else if monitors.last().display is Some {
        Some(monitors.len() - 1)
    } else {
        last_hosted(monitors.drop_last())
    }
}

/// The frame over the tiles: its left edge and its width. It spans from the
/// first monitor on a display to the last. `None` where no monitor is.
pub open spec fn frame_over(monitors: Seq<MonitorEntry>) -> Option<(int, int)> {
    match (first_hosted(monitors), last_hosted(monitors)) {
        (Some(first), Some(last)) => {
            let x = tile_left(first) - FRAME_PAD;
            Some((x, tile_left(last) + TILE_W + FRAME_PAD - x))
        },
        _ => None,
    }
}

/// One monitor in words.
pub open spec fn described(m: MonitorEntry) -> Seq<char> {
    match m.display {
        Some(d) => "monitor "@ + decimal(m.id.0 as nat) + " on display "@ + decimal((d + 1) as nat),
        None => "monitor "@ + decimal(m.id.0 as nat) + " hidden"@,
    }
}

/// The diagram in words.
pub open spec fn description(monitors: Seq<MonitorEntry>) -> Seq<char> {
    "Monitors: "@ + joined(monitors.map_values(|m: MonitorEntry| described(m)), ", "@)
}

/// The diagram in words.
pub fn describe(view: &MonitorsView) -> (r: String)
    requires
        forall|i: int|
            0 <= i < view.monitors@.len() ==> ((#[trigger] view.monitors@[i]).display matches Some(
                d,
            ) ==> d < usize::MAX),
    ensures
        r@ == description(view.monitors@),
{
    let mut parts: Vec<String> = Vec::new();
    let ghost say = |m: MonitorEntry| described(m);
    assert(texts(parts@) =~= view.monitors@.take(0).map_values(say));
    for i in 0..view.monitors.len()
        invariant
            say == (|m: MonitorEntry| described(m)),
            parts@.len() == i,
            texts(parts@) == view.monitors@.take(i as int).map_values(say),
            forall|j: int|
                0 <= j < view.monitors@.len() ==> ((
                #[trigger] view.monitors@[j]).display matches Some(d) ==> d < usize::MAX),
    {
        let ghost before = parts@;
        let m = view.monitors[i];
        let part = match m.display {
            Some(d) => {
                let mut s = around_number("monitor ", m.id.0 as u64, " on display ");
                push_decimal(&mut s, (d + 1) as u64);
                s
            },
            None => around_number("monitor ", m.id.0 as u64, " hidden"),
        };
        assert(part@ == described(m));
        parts.push(part);
        assert(texts(parts@) =~= texts(before).push(described(m)));
        assert(view.monitors@.take(i + 1).map_values(say) =~= view.monitors@.take(
            i as int,
        ).map_values(say).push(described(m)));
    }
    assert(view.monitors@.take(view.monitors@.len() as int) =~= view.monitors@);
    let mut out = owned("Monitors: ");
    let n: usize = parts.len();
    assert(parts@.take(n as int) =~= parts@);
    let list = join_first(&parts, n, ", ");
    out.append(list.as_str());
    out
}

/// How many windows of a tile are drawn as dots.
pub fn dots(windows: usize) -> (r: usize)
    ensures
        r == (if windows < MAX_DOTS {
            windows
        } else {
            MAX_DOTS
        }),
        r <= windows,
        r <= 6,
        r == windows || r == 6,
{
    if windows < MAX_DOTS {
        windows
    } else {
        MAX_DOTS
    }
}

/// What the prompt asks.
pub fn confirm_question(from: MonitorEntry, into: MonitorEntry) -> (r: String)
    ensures
        r@ == "Merge monitor "@ + decimal(from.id.0 as nat) + " into "@ + decimal(into.id.0 as nat)
            + "?"@,
{
    let mut s = around_number("Merge monitor ", from.id.0 as u64, " into ");
    push_decimal(&mut s, into.id.0 as u64);
    s.append("?");
    s
}

/// What the prompt says a merge would carry.
pub fn confirm_detail(from: MonitorEntry) -> (r: String)
    ensures
        r@ == (if from.all_windows == 0 {
            "No windows to move"@
        } else if from.all_windows == 1 {
            "1 window moves, on every workspace"@
        } else {
            decimal(from.all_windows as nat) + " windows move, on every workspace"@
        }),
{
    if from.all_windows == 0 {
        owned("No windows to move")
    } else if from.all_windows == 1 {
        owned("1 window moves, on every workspace")
    } else {
        let r = around_number("", from.all_windows as u64, " windows move, on every workspace");
        proof {
            reveal_strlit("");
            assert(r@ =~= decimal(from.all_windows as nat)
                + " windows move, on every workspace"@);
        }
        r
    }
}

// --- interaction ----------------------------------------------------------------------

/// A tile in the hand.
#[derive(Clone, Copy, Debug, PartialEq, Eq, Structural)]
pub struct Drag {
    pub from: usize,
    /// It has travelled far enough to count as a drag.
    pub moved: bool,
}

/// A button of the prompt.
#[derive(Clone, Copy, Debug, PartialEq, Eq, Structural)]
pub enum Button {
    Cancel,
    Merge,
}

/// What the diagram remembers while the menu is open.
#[derive(Debug)]
pub struct MonitorMap {
    pub view: Option<MonitorsView>,
    /// Commands are acted on.
    pub engaged: bool,
    /// A monitor is spare, so tiles can be dragged.
    pub mergeable: bool,
    pub drag: Option<Drag>,
    /// The plus is held down.
    pub adding: bool,
    /// A drop awaiting its answer, as tiles: from and into.
    pub confirm: Option<(usize, usize)>,
}

/// How the diagram is laid out.
#[derive(Debug)]
pub struct Shown {
    pub width: i64,
    pub height: i64,
    /// The frame's left edge and width; `None` hides it.
    pub frame: Option<(i64, i64)>,
    pub tip: Option<&'static str>,
    pub label: String,
}

/// What letting go of the mouse leads to.
#[derive(Debug)]
pub enum Released {
    Nothing,
    Redraw,
    /// The prompt took the tiles' place: hide the frame and redraw.
    Ask,
    /// Back to the tiles, laid out like this, with the frame sliding.
    Show(Shown),
    /// Send the command and close the menu.
    Command(HotkeyAction),
}

/// A monitor is spare: there are more than displays, of which at least one is
/// counted.
pub open spec fn has_spare(view: MonitorsView) -> bool {
    view.monitors@.len() > 1 && view.monitors@.len() > view.displays@.len()
}

/// A view that can be laid out.
pub open spec fn fits(view: MonitorsView) -> bool {
    &&& view.monitors@.len() <= MAX_TILES
    &&& forall|i: int|
        0 <= i < view.monitors@.len() ==> ((#[trigger] view.monitors@[i]).display matches Some(d)
            ==> d < usize::MAX)
}

/// The hint shown over the diagram.
pub open spec fn tip_for(engaged: bool, mergeable: bool) -> Option<Seq<char>> {
    if mergeable {
        Some("Drag a monitor onto another to merge them; + adds a monitor"@)
    } else if engaged {
        Some("+ adds a monitor"@)
    } else {
        None
    }
}

impl Shown {
    /// The layout of a view.
    pub open spec fn lays_out(
        self,
        view: MonitorsView,
        engaged: bool,
        mergeable: bool,
        asking: bool,
    ) -> bool {
        let n = view.monitors@.len() as int;
        &&& self.width == 2 * MARGIN_X + 2 * FRAME_PAD + n * TILE_W + (if n > 0 {
            n - 1
        } else {
            0
        }) * TILE_GAP + (if engaged {
            TILE_GAP + ADD_W
        } else {
            0
        })
        &&& self.height == TOP + TILE_H + 2 * FRAME_PAD + BOTTOM
        &&& match frame_over(view.monitors@) {
            Some((x, w)) => if asking {
                self.frame is None
            } else {
                self.frame matches Some(f) && f.0 == x && f.1 == w
            },
            None => self.frame is None,
        }
        &&& match tip_for(engaged, mergeable) {
            Some(tip) => self.tip matches Some(t) && t@ == tip,
            None => self.tip is None,
        }
        &&& self.label@ == description(view.monitors@)
    }
}

impl MonitorMap {
    /// How many tiles are shown.
    pub open spec fn tiles(&self) -> nat {
        match self.view {
            Some(v) => v.monitors@.len(),
            None => 0,
        }
    }

    /// What is in the hand or asked about is a tile that is shown, a prompt is
    /// about two different ones, and the plus is only held while commands are
    /// acted on.
    pub open spec fn wf(&self) -> bool {
        &&& self.view matches Some(v) ==> fits(v)
        &&& self.drag matches Some(d) ==> d.from < self.tiles()
        &&& self.confirm matches Some((from, into)) ==> from < self.tiles() && into < self.tiles()
            && from != into
        &&& self.adding ==> self.engaged
    }

    pub fn new() -> (r: MonitorMap)
        ensures
            r.wf(),
            r.view is None,
            !r.engaged,
            !r.mergeable,
            r.drag is None,
            !r.adding,
            r.confirm is None,
    {
        MonitorMap {
            view: None,
            engaged: false,
            mergeable: false,
            drag: None,
            adding: false,
            confirm: None,
        }
    }

    fn count(&self) -> (r: usize)
        requires
            self.wf(),
        ensures
            r == self.tiles(),
            r <= MAX_TILES,
    {
        match &self.view {
            Some(v) => v.monitors.len(),
            None => 0,
        }
    }

    /// Show a view. `animate` says that the menu is open and the user just saw
    /// it change; a fresh menu starts clean, and so does one whose tiles have
    /// changed in number.
    pub fn show(&mut self, view: MonitorsView, engaged: bool, animate: bool) -> (r: Shown)
        requires
            old(self).wf(),
            fits(view),
        ensures
            final(self).wf(),
            final(self).view == Some(view),
            final(self).engaged == engaged,
            final(self).mergeable == (engaged && has_spare(view)),
            !final(self).adding,
            ({
                let keeps = animate && old(self).view is Some && old(self).tiles()
                    == view.monitors@.len();
                &&& final(self).drag == (if keeps {
                    old(self).drag
                } else {
                    None
                })
                &&& final(self).confirm == (if keeps {
                    old(self).confirm
                } else {
                    None
                })
            }),
            r.lays_out(view, engaged, final(self).mergeable, final(self).confirm is Some),
    {
        let same = match &self.view {
            Some(v) => v.monitors.len() == view.monitors.len(),
            None => false,
        };
        if !animate || !same {
            self.drag = None;
            self.confirm = None;
        }
        self.adding = false;
        self.engaged = engaged;
        let n: usize = view.monitors.len();
        let mergeable = engaged && n > 1 && n > view.displays.len();
        self.mergeable = mergeable;
        let shown = layout(&view, engaged, mergeable, self.confirm.is_some());
        self.view = Some(view);
        shown
    }

    /// The mouse went down at a point. `true` asks for a redraw.
    pub fn mouse_down(&mut self, x: i64, y: i64) -> (r: bool)
        requires
            old(self).wf(),
        ensures
            final(self).wf(),
            final(self).view == old(self).view,
            final(self).engaged == old(self).engaged,
            final(self).mergeable == old(self).mergeable,
            final(self).confirm == old(self).confirm,
            ({
                let n = old(self).tiles() as int;
                let plus = old(self).confirm is None && old(self).engaged && on_plus(
                    n,
                    x as int,
                    y as int,
                );
                let tiles = old(self).confirm is None && !plus && old(self).mergeable;
                &&& r == plus
                &&& final(self).adding == (old(self).adding || plus)
                &&& if tiles && exists|i: int| 0 <= i < n && on_tile(i, x as int, y as int) {
                    final(self).drag matches Some(d) && on_tile(d.from as int, x as int, y as int)
                        && !d.moved
                } else {
                    final(self).drag == old(self).drag
                }
            }),
    {
        if self.confirm.is_some() {
            return false;
        }
        let n: usize = self.count();
        if self.engaged && plus_at(n, x, y) {
            self.adding = true;
            return true;
        }
        if self.mergeable {
            if let Some(i) = tile_at(n, x, y) {
                assert(on_tile(i as int, x as int, y as int));
                self.drag = Some(Drag { from: i, moved: false });
            }
        }
        false
    }

    /// The mouse moved while down; `beyond` is whether it is further from where
    /// it took the tile than a press may stray. `true` asks for a redraw.
    pub fn mouse_dragged(&mut self, beyond: bool) -> (r: bool)
        requires
            old(self).wf(),
        ensures
            final(self).wf(),
            r == (old(self).drag is Some),
            *final(self) == (MonitorMap {
                drag: match old(self).drag {
                    Some(d) => Some(Drag { moved: d.moved || beyond, ..d }),
                    None => None,
                },
                ..*old(self)
            }),
    {
        match self.drag {
            Some(d) => {
                self.drag = Some(Drag { from: d.from, moved: d.moved || beyond });
                true
            },
            None => false,
        }
    }

    /// The mouse was let go at a point, over a button of the prompt if there is
    /// one there.
    pub fn mouse_up(&mut self, x: i64, y: i64, button: Option<Button>) -> (r: Released)
        requires
            old(self).wf(),
        ensures
            final(self).wf(),
            final(self).view == old(self).view,
            match old(self).confirm {
                Some((from, into)) => {
                    &&& button is None ==> r is Nothing && *final(self) == *old(self)
                    &&& button == Some(Button::Merge) ==> r == Released::Command(
                        (HotkeyAction::MergeMonitors {
                            from: old(self).view->Some_0.monitors@[from as int].id,
                            into: old(self).view->Some_0.monitors@[into as int].id,
                        }),
                    ) && *final(self) == (MonitorMap { confirm: None, ..*old(self) })
                    &&& button == Some(Button::Cancel) ==> {
                        &&& final(self).confirm is None
                        &&& final(self).drag == old(self).drag
                        &&& !final(self).adding
                        &&& final(self).engaged == old(self).engaged
                        &&& final(self).mergeable == (old(self).engaged && has_spare(
                            old(self).view->Some_0,
                        ))
                        &&& r matches Released::Show(shown)
                        &&& shown.lays_out(
                            old(self).view->Some_0,
                            final(self).engaged,
                            final(self).mergeable,
                            false,
                        )
                    }
                },
                None => if old(self).adding {
                    &&& *final(self) == (MonitorMap { adding: false, ..*old(self) })
                    &&& r == (if on_plus(old(self).tiles() as int, x as int, y as int) {
                        Released::Command(HotkeyAction::AddMonitor)
                    } else {
                        Released::Redraw
                    })
                } else {
                    match old(self).drag {
                        None => r is Nothing && *final(self) == *old(self),
                        Some(d) => {
                            let dropped = d.moved && exists|i: int|
                                0 <= i < old(self).tiles() && i != d.from && on_tile(
                                    i,
                                    x as int,
                                    y as int,
                                );
                            &&& dropped ==> r is Ask && (final(self).confirm matches Some(
                                (from, into),
                            ) && from == d.from && on_tile(into as int, x as int, y as int))
                            &&& !dropped ==> r is Redraw && final(self).confirm is None
                            &&& *final(self) == (MonitorMap {
                                drag: None,
                                confirm: final(self).confirm,
                                ..*old(self)
                            })
                        },
                    }
                },
            },
    {
        if let Some((from, into)) = self.confirm {
            return match button {
                Some(Button::Merge) => self.merge(from, into),
                Some(Button::Cancel) => self.answer(),
                None => Released::Nothing,
            };
        }
        let n: usize = self.count();
        if self.adding {
            self.adding = false;
            return if plus_at(n, x, y) {
                Released::Command(HotkeyAction::AddMonitor)
            } else {
                Released::Redraw
            };
        }
        let d = match self.drag {
            Some(d) => d,
            None => {
                return Released::Nothing;
            },
        };
        self.drag = None;
        if d.moved {
            if let Some(into) = tile_at(n, x, y) {
                assert(on_tile(into as int, x as int, y as int));
                if into != d.from {
                    self.confirm = Some((d.from, into));
                    return Released::Ask;
                }
                assert forall|i: int| 0 <= i < n && i != d.from implies !on_tile(
                    i,
                    x as int,
                    y as int,
                ) by {
                    if on_tile(i, x as int, y as int) {
                        law_tiles_do_not_overlap(n as int, i, into as int, x as int, y as int);
                    }
                }
            }
        }
        Released::Redraw
    }

    /// Back to the tiles, as they were.
    fn answer(&mut self) -> (r: Released)
        requires
            old(self).wf(),
            old(self).confirm is Some,
        ensures
            final(self).wf(),
            final(self).view == old(self).view,
            final(self).confirm is None,
            final(self).drag == old(self).drag,
            !final(self).adding,
            final(self).engaged == old(self).engaged,
            final(self).mergeable == (old(self).engaged && has_spare(old(self).view->Some_0)),
            r matches Released::Show(shown) && shown.lays_out(
                old(self).view->Some_0,
                final(self).engaged,
                final(self).mergeable,
                false,
            ),
    {
        self.confirm = None;
        match self.view.take() {
            Some(view) => {
                let engaged = self.engaged;
                let n: usize = view.monitors.len();
                let mergeable = engaged && n > 1 && n > view.displays.len();
                let shown = layout(&view, engaged, mergeable, false);
                self.adding = false;
                self.engaged = engaged;
                self.mergeable = mergeable;
                self.view = Some(view);
                Released::Show(shown)
            },
            None => Released::Nothing,
        }
    }

    fn merge(&mut self, from: usize, into: usize) -> (r: Released)
        requires
            old(self).wf(),
            old(self).confirm == Some((from, into)),
        ensures
            final(self).wf(),
            *final(self) == (MonitorMap { confirm: None, ..*old(self) }),
            r == Released::Command(
                (HotkeyAction::MergeMonitors {
                    from: old(self).view->Some_0.monitors@[from as int].id,
                    into: old(self).view->Some_0.monitors@[into as int].id,
                }),
            ),
    {
        self.confirm = None;
        match &self.view {
            Some(v) => Released::Command(
                HotkeyAction::MergeMonitors { from: v.monitors[from].id, into: v.monitors[into].id },
            ),
            None => Released::Nothing,
        }
    }
}

fn layout(view: &MonitorsView, engaged: bool, mergeable: bool, asking: bool) -> (r: Shown)
    requires
        fits(*view),
        mergeable ==> engaged,
    ensures
        r.lays_out(*view, engaged, mergeable, asking),
{
    let n: usize = view.monitors.len();
    let gaps: i64 = if n > 0 {
        n as i64 - 1
    } else {
        0
    };
    let plus: i64 = if engaged {
        TILE_GAP + ADD_W
    } else {
        0
    };
    let width: i64 = 2 * MARGIN_X + 2 * FRAME_PAD + n as i64 * TILE_W + gaps * TILE_GAP + plus;
    let mut first: Option<usize> = None;
    let mut last: Option<usize> = None;
    for i in 0..n
        invariant
            n == view.monitors@.len(),
            match first {
                Some(f) => f < i && first_hosted(view.monitors@.take(i as int)) == Some(f as int),
                None => first_hosted(view.monitors@.take(i as int)) is None,
            },
            match last {
                Some(l) => l < i && last_hosted(view.monitors@.take(i as int)) == Some(l as int),
                None => last_hosted(view.monitors@.take(i as int)) is None,
            },
    {
        assert(view.monitors@.take(i + 1).drop_last() =~= view.monitors@.take(i as int));
        if view.monitors[i].display.is_some() {
            if first.is_none() {
                first = Some(i);
            }
            last = Some(i);
        }
    }
    assert(view.monitors@.take(n as int) =~= view.monitors@);
    let frame: Option<(i64, i64)> = if asking {
        None
    } else {
        match (first, last) {
            (Some(f), Some(l)) => {
                let x: i64 = tile_x(f) - FRAME_PAD;
                let w: i64 = tile_x(l) + TILE_W + FRAME_PAD - x;
                Some((x, w))
            },
            _ => None,
        }
    };
    let tip: Option<&'static str> = if mergeable {
        Some("Drag a monitor onto another to merge them; + adds a monitor")
    } else if engaged {
        Some("+ adds a monitor")
    } else {
        None
    };
    Shown {
        width,
        height: TOP + TILE_H + 2 * FRAME_PAD + BOTTOM,
        frame,
        tip,
        label: describe(view),
    }
}

/// What one tile is drawn as.
#[derive(Clone, Copy, Debug, PartialEq, Eq, Structural)]
pub struct Tile {
    pub number: u8,
    pub dots: usize,
    /// It is on a display, or in the hand.
    pub shown: bool,
    /// Stepping starts from it.
    pub viewed: bool,
    /// A drop here would merge into it.
    pub target: bool,
    /// It is in the hand, and only its outline is left in its place.
    pub lifted: bool,
}

/// What tile `i` is drawn as, with the pointer at a point.
pub open spec fn tile_drawn(map: MonitorMap, i: int, x: int, y: int) -> Tile {
    let v = map.view->Some_0;
    let m = v.monitors@[i];
    let dragging = map.drag matches Some(d) && d.moved;
    let lifted = dragging && map.drag->Some_0.from == i;
    Tile {
        number: m.id.0,
        dots: if m.windows < MAX_DOTS {
            m.windows
        } else {
            MAX_DOTS
        },
        shown: m.display is Some || lifted,
        viewed: m.id == v.viewed,
        target: dragging && !lifted && on_tile(i, x, y),
        lifted,
    }
}

impl MonitorMap {
    /// What the tiles are drawn as, with the pointer at a point. Nothing is
    /// drawn of them while the prompt is up.
    pub fn draw_tiles(&self, x: i64, y: i64) -> (r: Vec<Tile>)
        requires
            self.wf(),
        ensures
            r@.len() == (if self.confirm is Some {
                0
            } else {
                self.tiles()
            }),
            forall|i: int|
                0 <= i < r@.len() ==> #[trigger] r@[i] == tile_drawn(*self, i, x as int, y as int),
    {
        let mut out: Vec<Tile> = Vec::new();
        if self.confirm.is_some() {
            return out;
        }
        let view = match &self.view {
            Some(v) => v,
            None => {
                return out;
            },
        };
        let n: usize = view.monitors.len();
        let (dragging, from): (bool, usize) = match self.drag {
            Some(d) => (d.moved, d.from),
            None => (false, 0),
        };
        let under: Option<usize> = tile_at(n, x, y);
        for i in 0..n
            invariant
                self.wf(),
                self.view == Some(*view),
                n == view.monitors@.len(),
                out@.len() == i,
                dragging == (self.drag matches Some(d) && d.moved),
                dragging ==> from == self.drag->Some_0.from,
                match under {
                    Some(u) => u < n && on_tile(u as int, x as int, y as int),
                    None => forall|j: int|
                        0 <= j < n ==> !#[trigger] on_tile(j, x as int, y as int),
                },
                forall|j: int|
                    0 <= j < i ==> #[trigger] out@[j] == tile_drawn(*self, j, x as int, y as int),
        {
            let m = view.monitors[i];
            let lifted = dragging && from == i;
            let here = match under {
                Some(u) => u == i,
                None => false,
            };
            proof {
                if let Some(u) = under {
                    if on_tile(i as int, x as int, y as int) {
                        law_tiles_do_not_overlap(n as int, i as int, u as int, x as int, y as int);
                    }
                }
                assert(here == on_tile(i as int, x as int, y as int));
            }
            out.push(
                Tile {
                    number: m.id.0,
                    dots: dots(m.windows),
                    shown: m.display.is_some() || lifted,
                    viewed: m.id.0 == view.viewed.0,
                    target: dragging && !lifted && here,
                    lifted,
                },
            );
        }
        out
    }

    /// Whether the plus is drawn beside the tiles: while commands are acted on and
    /// no tile is in the hand.
    pub fn draws_plus(&self) -> (r: bool)
        ensures
            r == (self.view is Some && self.confirm is None && self.engaged && !(self.drag matches
                Some(d) && d.moved)),
    {
        let lifted = match self.drag {
            Some(d) => d.moved,
            None => false,
        };
        self.view.is_some() && self.confirm.is_none() && self.engaged && !lifted
    }
}

/// Tiles of 72 points stand in a row, 82 points from one to the next, and the
/// plus where the next would be.
pub proof fn law_tiles_stand_in_a_row(i: int, x: int, y: int)
    ensures
        on_tile(i, x, y) <==> 25 + 82 * i <= x < 97 + 82 * i && 9 <= y < 51,
        on_plus(i, x, y) <==> 25 + 82 * i <= x < 53 + 82 * i && 9 <= y < 51,
        tile_left(i) == 25 + 82 * i,
{
}

/// The frame reaches from the first monitor on a display to the last, five points
/// beyond each, whatever stands between; with no monitor on a display there is
/// none.
pub proof fn law_the_frame_spans_the_monitors_on_displays(
    monitors: Seq<MonitorEntry>,
    first: int,
    last: int,
)
    requires
        0 <= first <= last < monitors.len(),
        monitors[first].display is Some,
        monitors[last].display is Some,
        forall|i: int| 0 <= i < first ==> (#[trigger] monitors[i]).display is None,
        forall|i: int| last < i < monitors.len() ==> (#[trigger] monitors[i]).display is None,
    ensures
        frame_over(monitors) is Some,
        frame_over(monitors)->Some_0.0 == tile_left(first) - 5,
        frame_over(monitors)->Some_0.0 + frame_over(monitors)->Some_0.1 == tile_left(last) + 72 + 5,
{
    lemma_first_hosted(monitors, first);
    lemma_last_hosted(monitors, last);
}

/// Where no monitor is on a display there is no frame.
pub proof fn law_no_frame_without_a_display(monitors: Seq<MonitorEntry>)
    requires
        forall|i: int| 0 <= i < monitors.len() ==> (#[trigger] monitors[i]).display is None,
    ensures
        frame_over(monitors) is None,
{
    lemma_last_hosted(monitors, -1);
}

proof fn lemma_first_hosted(monitors: Seq<MonitorEntry>, k: int)
    requires
        0 <= k < monitors.len(),
        monitors[k].display is Some,
        forall|i: int| 0 <= i < k ==> (#[trigger] monitors[i]).display is None,
    ensures
        first_hosted(monitors) == Some(k),
    decreases monitors.len(),
{
    let init = monitors.drop_last();
    if k < init.len() {
        assert forall|i: int| 0 <= i < k implies (#[trigger] init[i]).display is None by {
            assert(monitors[i].display is None);
        }
        lemma_first_hosted(init, k);
    } else {
        assert forall|i: int| 0 <= i < init.len() implies (#[trigger] init[i]).display
            is None by {
            assert(monitors[i].display is None);
        }
        lemma_none_hosted(init);
    }
}

proof fn lemma_none_hosted(monitors: Seq<MonitorEntry>)
    requires
        forall|i: int| 0 <= i < monitors.len() ==> (#[trigger] monitors[i]).display is None,
    ensures
        first_hosted(monitors) is None,
    decreases monitors.len(),
{
    if monitors.len() > 0 {
        let init = monitors.drop_last();
        assert forall|i: int| 0 <= i < init.len() implies (#[trigger] init[i]).display
            is None by {
            assert(monitors[i].display is None);
        }
        lemma_none_hosted(init);
        assert(monitors[monitors.len() - 1].display is None);
    }
}

proof fn lemma_last_hosted(monitors: Seq<MonitorEntry>, k: int)
    requires
        -1 <= k < monitors.len(),
        k >= 0 ==> monitors[k].display is Some,
        forall|i: int| k < i < monitors.len() ==> (#[trigger] monitors[i]).display is None,
    ensures
        k >= 0 ==> last_hosted(monitors) == Some(k),
        k < 0 ==> last_hosted(monitors) is None,
    decreases monitors.len(),
{
    if k < monitors.len() - 1 {
        let init = monitors.drop_last();
        assert(monitors[monitors.len() - 1].display is None);
        assert forall|i: int| k < i < init.len() implies (#[trigger] init[i]).display
            is None by {
            assert(monitors[i].display is None);
        }
        lemma_last_hosted(init, k);
    }
}

/// Each monitor is described by its own number and by the display it is on,
/// counted from one, or as hidden.
pub proof fn law_monitors_are_described_as_they_are(m: MonitorEntry, rest: Seq<MonitorEntry>)
    ensures
        m.display matches Some(d) ==> described(m) == "monitor "@ + decimal(m.id.0 as nat)
            + " on display "@ + decimal((d + 1) as nat),
        m.display is None ==> described(m) == "monitor "@ + decimal(m.id.0 as nat) + " hidden"@,
        description(seq![m]) == "Monitors: "@ + described(m),
        rest.len() > 0 ==> description(rest.push(m)) == description(rest) + ", "@ + described(m),
{
    let say = |m: MonitorEntry| described(m);
    assert(seq![m].map_values(say) =~= seq![described(m)]);
    assert(joined(seq![described(m)], ", "@) =~= described(m));
    assert(rest.push(m).map_values(say) =~= rest.map_values(say).push(described(m)));
    let words = rest.map_values(say);
    if rest.len() > 0 {
        assert(words.push(described(m)).drop_last() =~= words);
        assert(description(rest.push(m)) =~= description(rest) + ", "@ + described(m));
    }
}

/// Tiles can be dragged exactly where a merge leaves a monitor for every
/// display, and one at least.
pub proof fn law_a_spare_monitor_can_be_merged_away(view: MonitorsView)
    ensures
        has_spare(view) <==> view.monitors@.len() - 1 >= 1 && view.monitors@.len() - 1
            >= view.displays@.len(),
{
}

/// The diagram is as wide as its tiles, the gaps between them and its margins,
/// with room for the plus while commands are acted on; it says what can be done,
/// and frames nothing while it asks.
pub proof fn law_the_diagram_has_room_for_its_tiles(
    shown: Shown,
    view: MonitorsView,
    engaged: bool,
    mergeable: bool,
    asking: bool,
)
    requires
        shown.lays_out(view, engaged, mergeable, asking),
    ensures
        view.monitors@.len() > 0 ==> shown.width == 40 + 82 * view.monitors@.len() + (if engaged {
            38int
        } else {
            0
        }),
        view.monitors@.len() == 0 ==> shown.width == (if engaged {
            88int
        } else {
            50
        }),
        shown.height == 62,
        asking ==> shown.frame is None,
        !asking ==> (shown.frame is Some <==> frame_over(view.monitors@) is Some),
        !asking && shown.frame is Some ==> shown.frame->Some_0.0 == frame_over(
            view.monitors@,
        )->Some_0.0 && shown.frame->Some_0.1 == frame_over(view.monitors@)->Some_0.1,
        shown.label@ == description(view.monitors@),
        shown.tip is Some <==> engaged || mergeable,
        mergeable ==> shown.tip->Some_0@
            == "Drag a monitor onto another to merge them; + adds a monitor"@,
        engaged && !mergeable ==> shown.tip->Some_0@ == "+ adds a monitor"@,
{
}

/// A tile carries its monitor's number and up to six of its windows. It is lifted
/// exactly while it is dragged, a target exactly while another is dragged over
/// it, and marked where stepping starts.
pub proof fn law_tiles_are_drawn_as_they_stand(map: MonitorMap, i: int, x: int, y: int)
    requires
        map.view is Some,
        0 <= i < map.view->Some_0.monitors@.len(),
    ensures
        ({
            let m = map.view->Some_0.monitors@[i];
            let t = tile_drawn(map, i, x, y);
            let dragged = map.drag is Some && map.drag->Some_0.moved;
            &&& t.number == m.id.0
            &&& m.windows <= 6 ==> t.dots == m.windows
            &&& m.windows > 6 ==> t.dots == 6
            &&& t.lifted <==> dragged && map.drag->Some_0.from == i
            &&& t.shown <==> m.display is Some || t.lifted
            &&& t.viewed <==> m.id == map.view->Some_0.viewed
            &&& t.target <==> dragged && map.drag->Some_0.from != i && 25 + 82 * i <= x < 97 + 82
                * i && 9 <= y < 51
        }),
{
}

} // verus!
