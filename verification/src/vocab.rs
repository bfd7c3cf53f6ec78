//! The words the daemon speaks: identifiers, commands, events and effects.
//!
//! Geometry is only ever carried and compared here, never computed with, so a
//! coordinate is held as the bits of the double it stands for. The two zeros
//! count as one, and a value that is no number as the same as itself.

use vstd::prelude::*;

verus! {

/// A workspace, by its ordinal: the first is 1.
#[derive(Clone, Copy, Debug, PartialEq, Eq, Structural)]
pub struct WorkspaceId(pub u8);

/// A window, by the number the window server gave it.
#[derive(Clone, Copy, Debug, PartialEq, Eq, Structural)]
pub struct WindowId(pub u32);

/// A process.
#[derive(Clone, Copy, Debug, PartialEq, Eq, Structural)]
pub struct Pid(pub i32);

/// A physical display, by its UUID.
#[derive(Clone, Copy, Debug, PartialEq, Eq, Structural)]
pub struct MonitorId(pub u128);

/// A virtual monitor, by its ordinal from the left: the first is 1.
#[derive(Clone, Copy, Debug, PartialEq, Eq, Structural)]
pub struct VirtualMonitorId(pub u8);

/// One issued operation, the name its result comes back under.
#[derive(Clone, Copy, Debug, PartialEq, Eq, Structural)]
pub struct OpId(pub u64);

/// When something happened: wall time for people, monotonic time for ordering.
#[derive(Clone, Copy, Debug, PartialEq, Eq, Structural)]
pub struct Ts {
    pub wall_ms: i64,
    pub mono_ns: u64,
}

/// A point, each coordinate as the bits of its double.
#[derive(Clone, Copy, Debug, PartialEq, Eq, Structural)]
pub struct Point {
    pub x: u64,
    pub y: u64,
}

/// A frame, each coordinate as the bits of its double.
#[derive(Clone, Copy, Debug, PartialEq, Eq, Structural)]
pub struct Rect {
    pub x: u64,
    pub y: u64,
    pub w: u64,
    pub h: u64,
}

/// The bits of the negative zero.
pub const NEGATIVE_ZERO: u64 = 0x8000_0000_0000_0000;

/// A coordinate with the two zeros taken for one.
pub open spec fn one_zero(bits: u64) -> u64 {
    if bits == NEGATIVE_ZERO {
        0
    } else {
        bits
    }
}

/// Whether two coordinates are the same, the two zeros being one.
pub fn same_coordinate(a: u64, b: u64) -> (r: bool)
    ensures
        r == (one_zero(a) == one_zero(b)),
{
    a == b || (a == 0 && b == NEGATIVE_ZERO) || (a == NEGATIVE_ZERO && b == 0)
}

impl Point {
    /// The point with the two zeros taken for one.
    pub open spec fn plain(self) -> Point {
        Point { x: one_zero(self.x), y: one_zero(self.y) }
    }

    /// Whether this is the same point.
    pub fn same(self, other: Point) -> (r: bool)
        ensures
            r == (self.plain() == other.plain()),
    {
        same_coordinate(self.x, other.x) && same_coordinate(self.y, other.y)
    }
}

impl Rect {
    /// The frame with the two zeros taken for one.
    pub open spec fn plain(self) -> Rect {
        Rect {
            x: one_zero(self.x),
            y: one_zero(self.y),
            w: one_zero(self.w),
            h: one_zero(self.h),
        }
    }

    /// Whether this is the same frame.
    pub fn same(self, other: Rect) -> (r: bool)
        ensures
            r == (self.plain() == other.plain()),
    {
        same_coordinate(self.x, other.x) && same_coordinate(self.y, other.y) && same_coordinate(
            self.w,
            other.w,
        ) && same_coordinate(self.h, other.h)
    }
}

/// Whether the daemon acts on commands.
#[derive(Clone, Copy, Debug, PartialEq, Eq, Structural)]
pub enum Mode {
    Active,
    Rescued,
}

/// A command the user can give.
#[derive(Clone, Copy, Debug, PartialEq, Eq, Structural)]
pub enum HotkeyAction {
    WorkspacePrev,
    WorkspaceNext,
    WorkspaceSwitchTo(WorkspaceId),
    MoveFocusedToMonitorPrev,
    MoveFocusedToMonitorNext,
    ViewMonitorPrev,
    ViewMonitorNext,
    ToggleVirtualMonitors,
    CarryFocusedToWorkspacePrev,
    CarryFocusedToWorkspaceNext,
    MruWorkspace,
    MruMonitor,
    MruApp,
    MruOtherMonitor,
    MruDemote,
    MergeMonitors { from: VirtualMonitorId, into: VirtualMonitorId },
    AddMonitor,
}

/// A focus gesture the user made that is not one of the daemon's commands.
#[derive(Clone, Copy, Debug, PartialEq, Eq, Structural)]
pub enum Gesture {
    MouseDown { at: Point },
    SystemSwitch,
}

/// How an attempted operation went, as its executor saw it.
#[derive(Clone, Debug, PartialEq, Eq)]
pub enum OpOutcome {
    Done,
    Timeout,
    Failed { detail: String },
}

/// [`OpOutcome`] with its text as characters.
pub enum OpOutcomeView {
    Done,
    Timeout,
    Failed { detail: Seq<char> },
}

impl View for OpOutcome {
    type V = OpOutcomeView;

    open spec fn view(&self) -> OpOutcomeView {
        match self {
            OpOutcome::Done => OpOutcomeView::Done,
            OpOutcome::Timeout => OpOutcomeView::Timeout,
            OpOutcome::Failed { detail } => OpOutcomeView::Failed { detail: detail@ },
        }
    }
}

/// What an accessibility notification was about.
#[derive(Debug, PartialEq, Eq)]
pub enum AxHintKind {
    /// The one hint that licenses treating a window as new.
    WindowCreated,
    Other(String),
}

/// [`AxHintKind`] with its text as characters.
pub enum AxHintKindView {
    WindowCreated,
    Other(Seq<char>),
}

impl View for AxHintKind {
    type V = AxHintKindView;

    open spec fn view(&self) -> AxHintKindView {
        match self {
            AxHintKind::WindowCreated => AxHintKindView::WindowCreated,
            AxHintKind::Other(name) => AxHintKindView::Other(name@),
        }
    }
}

impl Clone for AxHintKind {
    fn clone(&self) -> (r: Self)
        ensures
            r@ == self@,
    {
        match self {
            AxHintKind::WindowCreated => AxHintKind::WindowCreated,
            AxHintKind::Other(name) => AxHintKind::Other(name.clone()),
        }
    }
}

impl AxHintKind {
    /// Whether the two hints are about the same thing.
    pub fn same(&self, other: &AxHintKind) -> (r: bool)
        ensures
            r == (self@ == other@),
    {
        match (self, other) {
            (AxHintKind::WindowCreated, AxHintKind::WindowCreated) => true,
            (AxHintKind::Other(a), AxHintKind::Other(b)) => *a == *b,
            _ => false,
        }
    }
}

/// Why a look at the world is taken.
#[derive(Debug, PartialEq, Eq)]
pub enum RescanTrigger {
    Startup,
    Periodic,
    PostEffect,
    AxHint { pid: Option<Pid>, kind: AxHintKind },
    BackendHint { kind: String },
}

/// [`RescanTrigger`] with its text as characters.
pub enum RescanTriggerView {
    Startup,
    Periodic,
    PostEffect,
    AxHint { pid: Option<Pid>, kind: AxHintKindView },
    BackendHint { kind: Seq<char> },
}

impl View for RescanTrigger {
    type V = RescanTriggerView;

    open spec fn view(&self) -> RescanTriggerView {
        match self {
            RescanTrigger::Startup => RescanTriggerView::Startup,
            RescanTrigger::Periodic => RescanTriggerView::Periodic,
            RescanTrigger::PostEffect => RescanTriggerView::PostEffect,
            RescanTrigger::AxHint { pid, kind } => RescanTriggerView::AxHint {
                pid: *pid,
                kind: kind@,
            },
            RescanTrigger::BackendHint { kind } => RescanTriggerView::BackendHint { kind: kind@ },
        }
    }
}

impl Clone for RescanTrigger {
    fn clone(&self) -> (r: Self)
        ensures
            r@ == self@,
    {
        match self {
            RescanTrigger::Startup => RescanTrigger::Startup,
            RescanTrigger::Periodic => RescanTrigger::Periodic,
            RescanTrigger::PostEffect => RescanTrigger::PostEffect,
            RescanTrigger::AxHint { pid, kind } => RescanTrigger::AxHint {
                pid: *pid,
                kind: kind.clone(),
            },
            RescanTrigger::BackendHint { kind } => RescanTrigger::BackendHint {
                kind: kind.clone(),
            },
        }
    }
}

impl RescanTrigger {
    /// Whether the two looks are taken for the same reason.
    pub fn same(&self, other: &RescanTrigger) -> (r: bool)
        ensures
            r == (self@ == other@),
    {
        match (self, other) {
            (RescanTrigger::Startup, RescanTrigger::Startup) => true,
            (RescanTrigger::Periodic, RescanTrigger::Periodic) => true,
            (RescanTrigger::PostEffect, RescanTrigger::PostEffect) => true,
            (
                RescanTrigger::AxHint { pid: p, kind: k },
                RescanTrigger::AxHint { pid: q, kind: l },
            ) => same_pid(*p, *q) && k.same(l),
            (RescanTrigger::BackendHint { kind: k }, RescanTrigger::BackendHint { kind: l }) => *k
                == *l,
            _ => false,
        }
    }
}

/// Whether two optional processes are the same one, or both absent.
pub fn same_pid(p: Option<Pid>, q: Option<Pid>) -> (r: bool)
    ensures
        r == (p == q),
{
    match (p, q) {
        (Some(a), Some(b)) => a.0 == b.0,
        (None, None) => true,
        _ => false,
    }
}

/// Whether two window orders are the same.
pub fn same_order(a: &Vec<WindowId>, b: &Vec<WindowId>) -> (r: bool)
    ensures
        r == (a@ == b@),
{
    if a.len() != b.len() {
        return false;
    }
    for i in 0..a.len()
        invariant
            a.len() == b.len(),
            forall|j: int| 0 <= j < i ==> a@[j] == b@[j],
    {
        if a[i].0 != b[i].0 {
            return false;
        }
    }
    assert(a@ =~= b@);
    true
}

/// Something the core wants done.
#[derive(Clone, Debug, PartialEq, Eq)]
pub enum Effect {
    SwitchWorkspace { op: OpId, target: WorkspaceId },
    MoveWindowToWorkspace { op: OpId, window: WindowId, target: WorkspaceId },
    AssignWindowToWorkspace { op: OpId, window: WindowId, target: WorkspaceId },
    AssignWindowToMonitor { op: OpId, window: WindowId, target: VirtualMonitorId },
    ViewMonitor { op: OpId, target: VirtualMonitorId },
    SetVirtualMonitors { op: OpId, enabled: bool },
    MergeMonitors { op: OpId, from: VirtualMonitorId, into: VirtualMonitorId },
    AddMonitor { op: OpId },
    SetWindowFrame { op: OpId, window: WindowId, frame: Rect },
    FocusWindow { op: OpId, window: WindowId },
    FocusDesktop { op: OpId },
    WarpMouse { to: Point },
    RestackWindows { order: Vec<WindowId> },
    RequestRescan { reason: RescanTrigger },
    SetIntercepting { enabled: bool },
}

/// [`Effect`] with its lists and texts as sequences.
pub enum EffectView {
    SwitchWorkspace { op: OpId, target: WorkspaceId },
    MoveWindowToWorkspace { op: OpId, window: WindowId, target: WorkspaceId },
    AssignWindowToWorkspace { op: OpId, window: WindowId, target: WorkspaceId },
    AssignWindowToMonitor { op: OpId, window: WindowId, target: VirtualMonitorId },
    ViewMonitor { op: OpId, target: VirtualMonitorId },
    SetVirtualMonitors { op: OpId, enabled: bool },
    MergeMonitors { op: OpId, from: VirtualMonitorId, into: VirtualMonitorId },
    AddMonitor { op: OpId },
    SetWindowFrame { op: OpId, window: WindowId, frame: Rect },
    FocusWindow { op: OpId, window: WindowId },
    FocusDesktop { op: OpId },
    WarpMouse { to: Point },
    RestackWindows { order: Seq<WindowId> },
    RequestRescan { reason: RescanTriggerView },
    SetIntercepting { enabled: bool },
}

impl View for Effect {
    type V = EffectView;

    open spec fn view(&self) -> EffectView {
        match *self {
            Effect::SwitchWorkspace { op, target } => EffectView::SwitchWorkspace { op, target },
            Effect::MoveWindowToWorkspace { op, window, target } => {
                EffectView::MoveWindowToWorkspace { op, window, target }
            },
            Effect::AssignWindowToWorkspace { op, window, target } => {
                EffectView::AssignWindowToWorkspace { op, window, target }
            },
            Effect::AssignWindowToMonitor { op, window, target } => {
                EffectView::AssignWindowToMonitor { op, window, target }
            },
            Effect::ViewMonitor { op, target } => EffectView::ViewMonitor { op, target },
            Effect::SetVirtualMonitors { op, enabled } => EffectView::SetVirtualMonitors {
                op,
                enabled,
            },
            Effect::MergeMonitors { op, from, into } => EffectView::MergeMonitors {
                op,
                from,
                into,
            },
            Effect::AddMonitor { op } => EffectView::AddMonitor { op },
            Effect::SetWindowFrame { op, window, frame } => EffectView::SetWindowFrame {
                op,
                window,
                frame: frame.plain(),
            },
            Effect::FocusWindow { op, window } => EffectView::FocusWindow { op, window },
            Effect::FocusDesktop { op } => EffectView::FocusDesktop { op },
            Effect::WarpMouse { to } => EffectView::WarpMouse { to: to.plain() },
            Effect::RestackWindows { order } => EffectView::RestackWindows { order: order@ },
            Effect::RequestRescan { reason } => EffectView::RequestRescan { reason: reason@ },
            Effect::SetIntercepting { enabled } => EffectView::SetIntercepting { enabled },
        }
    }
}

impl Effect {
    /// Whether the two effects ask for the same thing.
    pub fn same(&self, other: &Effect) -> (r: bool)
        ensures
            r == (self@ == other@),
    {
        match (self, other) {
            (
                Effect::SwitchWorkspace { op: a, target: t },
                Effect::SwitchWorkspace { op: b, target: u },
            ) => a.0 == b.0 && t.0 == u.0,
            (
                Effect::MoveWindowToWorkspace { op: a, window: w, target: t },
                Effect::MoveWindowToWorkspace { op: b, window: x, target: u },
            ) => a.0 == b.0 && w.0 == x.0 && t.0 == u.0,
            (
                Effect::AssignWindowToWorkspace { op: a, window: w, target: t },
                Effect::AssignWindowToWorkspace { op: b, window: x, target: u },
            ) => a.0 == b.0 && w.0 == x.0 && t.0 == u.0,
            (
                Effect::AssignWindowToMonitor { op: a, window: w, target: t },
                Effect::AssignWindowToMonitor { op: b, window: x, target: u },
            ) => a.0 == b.0 && w.0 == x.0 && t.0 == u.0,
            (
                Effect::ViewMonitor { op: a, target: t },
                Effect::ViewMonitor { op: b, target: u },
            ) => a.0 == b.0 && t.0 == u.0,
            (
                Effect::SetVirtualMonitors { op: a, enabled: t },
                Effect::SetVirtualMonitors { op: b, enabled: u },
            ) => a.0 == b.0 && *t == *u,
            (
                Effect::MergeMonitors { op: a, from: f, into: t },
                Effect::MergeMonitors { op: b, from: g, into: u },
            ) => a.0 == b.0 && f.0 == g.0 && t.0 == u.0,
            (Effect::AddMonitor { op: a }, Effect::AddMonitor { op: b }) => a.0 == b.0,
            (
                Effect::SetWindowFrame { op: a, window: w, frame: f },
                Effect::SetWindowFrame { op: b, window: x, frame: g },
            ) => a.0 == b.0 && w.0 == x.0 && f.same(*g),
            (
                Effect::FocusWindow { op: a, window: w },
                Effect::FocusWindow { op: b, window: x },
            ) => a.0 == b.0 && w.0 == x.0,
            (Effect::FocusDesktop { op: a }, Effect::FocusDesktop { op: b }) => a.0 == b.0,
            (Effect::WarpMouse { to: p }, Effect::WarpMouse { to: q }) => p.same(*q),
            (Effect::RestackWindows { order: o }, Effect::RestackWindows { order: p }) => {
                same_order(o, p)
            },
            (Effect::RequestRescan { reason: p }, Effect::RequestRescan { reason: q }) => p.same(q),
            (
                Effect::SetIntercepting { enabled: t },
                Effect::SetIntercepting { enabled: u },
            ) => *t == *u,
            _ => false,
        }
    }
}

/// What the core had to say about a decision, by its kind.
#[derive(Clone, Copy, Debug, PartialEq, Eq, Structural)]
pub enum Note {
    SelfConfirmed,
    OpLost,
    OpFailed,
    External,
    GestureClassified,
    FollowedFocus,
    MonitorAdopted,
    HeldFocus,
    FocusReasserted,
    FocusDiverged,
    DesktopReasserted,
    DesktopDiverged,
    TearDetected,
    TearPersisting,
    Diverged,
}

/// The views of a list of effects.
pub open spec fn effect_views(effects: Seq<Effect>) -> Seq<EffectView> {
    effects.map_values(|e: Effect| e@)
}

/// Whether two lists ask for the same things in the same order.
pub fn same_effects(a: &Vec<Effect>, b: &Vec<Effect>) -> (r: bool)
    ensures
        r == (effect_views(a@) == effect_views(b@)),
{
    if a.len() != b.len() {
        assert(effect_views(a@).len() != effect_views(b@).len());
        return false;
    }
    for i in 0..a.len()
        invariant
            a.len() == b.len(),
            forall|j: int| 0 <= j < i ==> a@[j]@ == b@[j]@,
    {
        if !a[i].same(&b[i]) {
            assert(effect_views(a@)[i as int] != effect_views(b@)[i as int]);
            return false;
        }
    }
    assert(effect_views(a@) =~= effect_views(b@));
    true
}

/// Two coordinates that are the same number, or the same bits.
pub open spec fn same_number(a: u64, b: u64) -> bool {
    a == b || (a % 0x8000_0000_0000_0000 == 0 && b % 0x8000_0000_0000_0000 == 0)
}

/// Two frames with the same corner and the same extent.
pub open spec fn same_frame(a: Rect, b: Rect) -> bool {
    same_number(a.x, b.x) && same_number(a.y, b.y) && same_number(a.w, b.w) && same_number(
        a.h,
        b.h,
    )
}

/// Only the two zeros are taken for one.
pub proof fn law_only_the_zeros_are_one(a: u64, b: u64)
    ensures
        one_zero(a) == one_zero(b) <==> same_number(a, b),
{
}

/// Two effects ask for the same thing exactly if they are of one kind and agree
/// in every field.
pub proof fn law_effects_are_the_same_if_every_field_is(a: Effect, b: Effect)
    ensures
        a is SwitchWorkspace && b is SwitchWorkspace ==> (a@ == b@ <==> a->SwitchWorkspace_op == b->SwitchWorkspace_op && a->SwitchWorkspace_target == b->SwitchWorkspace_target),
        a is SwitchWorkspace && a@ == b@ ==> b is SwitchWorkspace,
        a is MoveWindowToWorkspace && b is MoveWindowToWorkspace ==> (a@ == b@ <==> a->MoveWindowToWorkspace_op == b->MoveWindowToWorkspace_op && a->MoveWindowToWorkspace_window == b->MoveWindowToWorkspace_window && a->MoveWindowToWorkspace_target == b->MoveWindowToWorkspace_target),
        a is MoveWindowToWorkspace && a@ == b@ ==> b is MoveWindowToWorkspace,
        a is AssignWindowToWorkspace && b is AssignWindowToWorkspace ==> (a@ == b@ <==> a->AssignWindowToWorkspace_op == b->AssignWindowToWorkspace_op && a->AssignWindowToWorkspace_window == b->AssignWindowToWorkspace_window && a->AssignWindowToWorkspace_target == b->AssignWindowToWorkspace_target),
        a is AssignWindowToWorkspace && a@ == b@ ==> b is AssignWindowToWorkspace,
        a is AssignWindowToMonitor && b is AssignWindowToMonitor ==> (a@ == b@ <==> a->AssignWindowToMonitor_op == b->AssignWindowToMonitor_op && a->AssignWindowToMonitor_window == b->AssignWindowToMonitor_window && a->AssignWindowToMonitor_target == b->AssignWindowToMonitor_target),
        a is AssignWindowToMonitor && a@ == b@ ==> b is AssignWindowToMonitor,
        a is ViewMonitor && b is ViewMonitor ==> (a@ == b@ <==> a->ViewMonitor_op == b->ViewMonitor_op && a->ViewMonitor_target == b->ViewMonitor_target),
        a is ViewMonitor && a@ == b@ ==> b is ViewMonitor,
        a is SetVirtualMonitors && b is SetVirtualMonitors ==> (a@ == b@ <==> a->SetVirtualMonitors_op == b->SetVirtualMonitors_op && a->SetVirtualMonitors_enabled == b->SetVirtualMonitors_enabled),
        a is SetVirtualMonitors && a@ == b@ ==> b is SetVirtualMonitors,
        a is MergeMonitors && b is MergeMonitors ==> (a@ == b@ <==> a->MergeMonitors_op == b->MergeMonitors_op && a->MergeMonitors_from == b->MergeMonitors_from && a->MergeMonitors_into == b->MergeMonitors_into),
        a is MergeMonitors && a@ == b@ ==> b is MergeMonitors,
        a is AddMonitor && b is AddMonitor ==> (a@ == b@ <==> a->AddMonitor_op == b->AddMonitor_op),
        a is AddMonitor && a@ == b@ ==> b is AddMonitor,
        a is SetWindowFrame && b is SetWindowFrame ==> (a@ == b@ <==> a->SetWindowFrame_op == b->SetWindowFrame_op && a->SetWindowFrame_window == b->SetWindowFrame_window && same_frame(a->SetWindowFrame_frame, b->SetWindowFrame_frame)),
        a is SetWindowFrame && a@ == b@ ==> b is SetWindowFrame,
        a is FocusWindow && b is FocusWindow ==> (a@ == b@ <==> a->FocusWindow_op == b->FocusWindow_op && a->FocusWindow_window == b->FocusWindow_window),
        a is FocusWindow && a@ == b@ ==> b is FocusWindow,
        a is FocusDesktop && b is FocusDesktop ==> (a@ == b@ <==> a->FocusDesktop_op == b->FocusDesktop_op),
        a is FocusDesktop && a@ == b@ ==> b is FocusDesktop,
        a is WarpMouse && b is WarpMouse ==> (a@ == b@ <==> same_number(a->WarpMouse_to.x, b->WarpMouse_to.x) && same_number(a->WarpMouse_to.y, b->WarpMouse_to.y)),
        a is WarpMouse && a@ == b@ ==> b is WarpMouse,
        a is RestackWindows && b is RestackWindows ==> (a@ == b@ <==> a->RestackWindows_order@ == b->RestackWindows_order@),
        a is RestackWindows && a@ == b@ ==> b is RestackWindows,
        a is RequestRescan && b is RequestRescan ==> (a@ == b@ <==> a->RequestRescan_reason@ == b->RequestRescan_reason@),
        a is RequestRescan && a@ == b@ ==> b is RequestRescan,
        a is SetIntercepting && b is SetIntercepting ==> (a@ == b@ <==> a->SetIntercepting_enabled == b->SetIntercepting_enabled),
        a is SetIntercepting && a@ == b@ ==> b is SetIntercepting,
{
}

/// Two looks are taken for the same reason exactly if they are of one kind and
/// agree in every field.
pub proof fn law_reasons_are_the_same_if_every_field_is(a: RescanTrigger, b: RescanTrigger)
    ensures
        a@ == b@ ==> (a is Startup <==> b is Startup) && (a is Periodic <==> b is Periodic) && (
        a is PostEffect <==> b is PostEffect) && (a is AxHint <==> b is AxHint) && (
        a is BackendHint <==> b is BackendHint),
        a is Startup && b is Startup ==> a@ == b@,
        a is Periodic && b is Periodic ==> a@ == b@,
        a is PostEffect && b is PostEffect ==> a@ == b@,
        a is BackendHint && b is BackendHint ==> (a@ == b@ <==> a->BackendHint_kind@
            == b->BackendHint_kind@),
        a is AxHint && b is AxHint ==> (a@ == b@ <==> a->AxHint_pid == b->AxHint_pid && (match (
            a->AxHint_kind,
            b->AxHint_kind,
        ) {
            (AxHintKind::WindowCreated, AxHintKind::WindowCreated) => true,
            (AxHintKind::Other(k), AxHintKind::Other(l)) => k@ == l@,
            _ => false,
        })),
{
}

/// Two lists ask for the same things exactly if they are as long as each other
/// and agree at every place.
pub proof fn law_lists_are_the_same_place_by_place(a: Seq<Effect>, b: Seq<Effect>)
    ensures
        effect_views(a) == effect_views(b) <==> a.len() == b.len() && forall|i: int|
            0 <= i < a.len() ==> (#[trigger] a[i])@ == b[i]@,
        effect_views(a).len() == a.len(),
{
    let x = effect_views(a);
    let y = effect_views(b);
    if x == y {
        assert(x.len() == y.len());
        assert forall|i: int| 0 <= i < a.len() implies (#[trigger] a[i])@ == b[i]@ by {
            assert(x[i] == y[i]);
        }
    }
    if a.len() == b.len() && forall|i: int| 0 <= i < a.len() ==> (#[trigger] a[i])@ == b[i]@ {
        assert(x =~= y);
    }
}

/// Two outcomes are the same exactly if they are of one kind and, where something
/// failed, say the same of it.
pub proof fn law_outcomes_are_the_same_if_every_field_is(a: OpOutcome, b: OpOutcome)
    ensures
        a@ == b@ <==> {
            ||| a is Done && b is Done
            ||| a is Timeout && b is Timeout
            ||| a is Failed && b is Failed && a->detail@ == b->detail@
        },
{
}

} // verus!
