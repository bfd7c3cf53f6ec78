//! The menu bar item: one mark per workspace, and a menu that switches
//! workspace on a pick.
//!
//! A pick reaches the engine as the same command the keyboard mints: the menu
//! is a second keyboard, not a second decision path.

use crate::engine::Msg;
use crate::menubar::MenuBarView;
use crate::text::{around_number, decimal, decimal_text, join_first, joined, push_decimal, texts};
use crate::vocab::{HotkeyAction, WorkspaceId};
use vstd::prelude::*;

verus! {

/// App names a menu row spells out before it counts the rest.
pub const NAMED_APPS: usize = 3;

/// The newest view, shared with whoever draws it. Nothing is shown before the
/// first one arrives.
#[derive(Debug)]
pub struct MenuBar {
    pub latest: Option<MenuBarView>,
}

impl MenuBar {
    pub fn new() -> (r: MenuBar)
        ensures
            r.latest is None,
    {
        MenuBar { latest: None }
    }

    /// Take the newest view. `true` asks for a redraw, which is only due when
    /// the view changed.
    pub fn show(&mut self, view: MenuBarView) -> (r: bool)
        ensures
            r == (old(self).latest is None || old(self).latest->Some_0@ != view@),
            r ==> final(self).latest == Some(view),
            !r ==> final(self).latest == old(self).latest,
    {
        let unchanged = match &self.latest {
            Some(latest) => latest.same(&view),
            None => false,
        };
        if unchanged {
            return false;
        }
        self.latest = Some(view);
        true
    }
}

/// The item in words.
pub open spec fn summary_of(
    current: Option<WorkspaceId>,
    count: nat,
    engaged: bool,
) -> Seq<char> {
    let s = match current {
        Some(ws) => "Ordo — workspace "@ + decimal(ws.0 as nat) + " of "@ + decimal(count),
        None => "Ordo — "@ + decimal(count) + " workspaces"@,
    };
    if engaged {
        s
    } else {
        s + " (paused)"@
    }
}

/// The item in words.
pub fn summary(view: &MenuBarView) -> (r: String)
    ensures
        r@ == summary_of(view.current, view.workspaces@.len(), view.engaged),
{
    let count: u64 = view.workspaces.len() as u64;
    let mut s = match view.current {
        Some(ws) => {
            let mut s = around_number("Ordo — workspace ", ws.0 as u64, " of ");
            push_decimal(&mut s, count);
            s
        },
        None => around_number("Ordo — ", count, " workspaces"),
    };
    if !view.engaged {
        s.append(" (paused)");
    }
    s
}

/// What stands for a workspace in the icon.
#[derive(Clone, Copy, Debug, PartialEq, Eq, Structural)]
pub enum Mark {
    /// A pill with the workspace's number.
    Current(u8),
    /// A dot.
    Occupied,
    /// A ring.
    Empty,
}

/// The mark of the workspace at `i`.
pub open spec fn mark_of(view: MenuBarView, i: int) -> Mark {
    let e = view.workspaces@[i];
    if view.current == Some(e.id) {
        Mark::Current(e.id.0)
    } else if e.apps@.len() == 0 {
        Mark::Empty
    } else {
        Mark::Occupied
    }
}

fn is_current(view: &MenuBarView, id: WorkspaceId) -> (r: bool)
    ensures
        r == (view.current == Some(id)),
{
    match view.current {
        Some(ws) => ws.0 == id.0,
        None => false,
    }
}

/// The icon: a mark for every workspace, in order.
pub fn icon(view: &MenuBarView) -> (r: Vec<Mark>)
    ensures
        r@.len() == view.workspaces@.len(),
        forall|i: int| 0 <= i < r@.len() ==> #[trigger] r@[i] == mark_of(*view, i),
{
    let mut marks: Vec<Mark> = Vec::new();
    for i in 0..view.workspaces.len()
        invariant
            marks@.len() == i,
            forall|j: int| 0 <= j < i ==> #[trigger] marks@[j] == mark_of(*view, j),
    {
        let e = &view.workspaces[i];
        let mark = if is_current(view, e.id) {
            Mark::Current(e.id.0)
        } else if e.apps.len() == 0 {
            Mark::Empty
        } else {
            Mark::Occupied
        };
        marks.push(mark);
    }
    marks
}

/// The names that could be found, each once, in order.
pub open spec fn distinct(names: Seq<Option<String>>) -> Seq<Seq<char>>
    decreases names.len(),
{
    if names.len() == 0 {
        Seq::empty()
    } else {
        let before = distinct(names.drop_last());
        match names.last() {
            Some(name) => if before.contains(name@) {
                before
            } else {
                before.push(name@)
            },
            None => before,
        }
    }
}

/// A row's title: the first few names, and how many more there are.
pub open spec fn title_of(names: Seq<Seq<char>>) -> Seq<char> {
    if names.len() <= NAMED_APPS {
        joined(names, ", "@)
    } else {
        joined(names.take(NAMED_APPS as int), ", "@) + " +"@ + decimal(
            (names.len() - NAMED_APPS) as nat,
        )
    }
}

/// A row's title, such as "Safari, Slack, Terminal +2", from the names of its
/// apps. Two apps of one name are named once.
pub fn apps_title(names: &Vec<Option<String>>) -> (r: String)
    ensures
        r@ == title_of(distinct(names@)),
{
    let mut found: Vec<String> = Vec::new();
    assert(texts(found@) =~= distinct(names@.take(0)));
    for i in 0..names.len()
        invariant
            texts(found@) == distinct(names@.take(i as int)),
    {
        assert(names@.take(i + 1).drop_last() =~= names@.take(i as int));
        if let Some(name) = &names[i] {
            let ghost before = found@;
            if !named(&found, name) {
                found.push(name.clone());
                assert(texts(found@) =~= texts(before).push(name@));
            }
        }
    }
    assert(names@.take(names@.len() as int) =~= names@);
    if found.len() <= NAMED_APPS {
        let n: usize = found.len();
        assert(found@.take(n as int) =~= found@);
        join_first(&found, n, ", ")
    } else {
        let mut title = join_first(&found, NAMED_APPS, ", ");
        assert(texts(found@.take(3)) =~= texts(found@).take(3));
        title.append(" +");
        push_decimal(&mut title, (found.len() - NAMED_APPS) as u64);
        title
    }
}

fn named(found: &Vec<String>, name: &String) -> (r: bool)
    ensures
        r == texts(found@).contains(name@),
{
    for i in 0..found.len()
        invariant
            forall|j: int| 0 <= j < i ==> found@[j]@ != name@,
    {
        assert(texts(found@)[i as int] == found@[i as int]@);
        if found[i] == *name {
            return true;
        }
    }
    assert forall|j: int| 0 <= j < texts(found@).len() implies texts(found@)[j] != name@ by {
        assert(texts(found@)[j] == found@[j]@);
    }
    false
}

/// One row of the menu.
#[derive(Debug)]
pub struct Row {
    pub title: String,
    /// The digit of the chord that switches here, shown as a legend; empty
    /// where there is none.
    pub key: String,
    /// The workspace a pick switches to.
    pub tag: u8,
    pub enabled: bool,
    /// The row is ticked.
    pub current: bool,
    pub symbol: String,
    pub description: String,
    /// The title reads "Empty" instead.
    pub empty: bool,
}

/// `row` is the row of the workspace at `i`, whose apps go by these names.
pub open spec fn is_row(row: Row, view: MenuBarView, i: int, names: Seq<Option<String>>) -> bool {
    let e = view.workspaces@[i];
    let number = decimal(e.id.0 as nat);
    &&& row.title@ == title_of(distinct(names))
    &&& row.key@ == (if 1 <= e.id.0 <= 9 {
        number
    } else {
        Seq::empty()
    })
    &&& row.tag == e.id.0
    &&& row.enabled == view.engaged
    &&& row.current == (view.current == Some(e.id))
    &&& row.symbol@ == (if row.current {
        number + ".square.fill"@
    } else {
        number + ".square"@
    })
    &&& row.description@ == "Workspace "@ + number
    &&& row.empty == (e.apps@.len() == 0)
}

/// The menu's rows, one per workspace. `names` are the names of each
/// workspace's apps.
pub fn fill(view: &MenuBarView, names: &Vec<Vec<Option<String>>>) -> (r: Vec<Row>)
    requires
        names@.len() == view.workspaces@.len(),
    ensures
        r@.len() == view.workspaces@.len(),
        forall|i: int| 0 <= i < r@.len() ==> is_row(#[trigger] r@[i], *view, i, names@[i]@),
{
    let mut rows: Vec<Row> = Vec::new();
    for i in 0..view.workspaces.len()
        invariant
            names@.len() == view.workspaces@.len(),
            rows@.len() == i,
            forall|j: int| 0 <= j < i ==> is_row(#[trigger] rows@[j], *view, j, names@[j]@),
    {
        let e = &view.workspaces[i];
        let n: u8 = e.id.0;
        let current = is_current(view, e.id);
        let key = if n >= 1 && n <= 9 {
            decimal_text(n as u64)
        } else {
            String::new()
        };
        let symbol = around_number(
            "",
            n as u64,
            if current {
                ".square.fill"
            } else {
                ".square"
            },
        );
        let description = around_number("Workspace ", n as u64, "");
        proof {
            reveal_strlit("");
            assert(symbol@ =~= decimal(n as nat) + (if current {
                ".square.fill"@
            } else {
                ".square"@
            }));
            assert(description@ =~= "Workspace "@ + decimal(n as nat));
        }
        rows.push(
            Row {
                title: apps_title(&names[i]),
                key,
                tag: n,
                enabled: view.engaged,
                current,
                symbol,
                description,
                empty: e.apps.len() == 0,
            },
        );
    }
    rows
}

/// The row that says how to resume, shown below the others while the daemon is
/// not engaged.
pub fn paused_row(view: &MenuBarView) -> (r: Option<&'static str>)
    ensures
        r is Some <==> !view.engaged,
        r matches Some(text) ==> text@ == "Paused — press ⌃⌥⌘O to resume"@,
{
    if view.engaged {
        None
    } else {
        Some("Paused — press ⌃⌥⌘O to resume")
    }
}

/// One item of the open menu.
#[derive(Debug)]
pub enum MenuItem {
    /// The diagram of the monitors.
    Diagram,
    /// The heading of what follows.
    Header(&'static str),
    /// A workspace that can be picked.
    Workspace(Row),
    Separator,
    /// A row that cannot be picked.
    Plain(&'static str),
}

/// The items before the workspaces.
pub open spec fn items_ahead(view: MenuBarView) -> int {
    if view.monitors is Some {
        2
    } else {
        1
    }
}

/// The whole menu: the diagram where there are monitors to show, the workspaces
/// under their heading, and how to resume, set apart, while paused.
pub fn menu(view: &MenuBarView, names: &Vec<Vec<Option<String>>>) -> (r: Vec<MenuItem>)
    requires
        names@.len() == view.workspaces@.len(),
    ensures
        r@.len() == items_ahead(*view) + view.workspaces@.len() + (if view.engaged {
            0int
        } else {
            2
        }),
        r@.len() == view.workspaces@.len() + (if view.monitors is Some {
            2int
        } else {
            1
        }) + (if view.engaged {
            0int
        } else {
            2
        }),
        view.monitors is Some ==> r@[0] is Diagram && r@[1] is Header,
        view.monitors is None ==> r@[0] is Header,
        r@[items_ahead(*view) - 1] matches MenuItem::Header(text) && text@ == "Workspaces"@,
        forall|i: int|
            0 <= i < view.workspaces@.len() ==> (#[trigger] r@[items_ahead(*view) + i] matches
                MenuItem::Workspace(row) && is_row(row, *view, i, names@[i]@)),
        !view.engaged ==> {
            let n = items_ahead(*view) + view.workspaces@.len();
            &&& r@[n] is Separator
            &&& r@[n + 1] matches MenuItem::Plain(text)
            &&& text@ == "Paused — press ⌃⌥⌘O to resume"@
        },
{
    let mut items: Vec<MenuItem> = Vec::new();
    if view.monitors.is_some() {
        items.push(MenuItem::Diagram);
    }
    items.push(MenuItem::Header("Workspaces"));
    let ghost ahead = items_ahead(*view);
    let rows = fill(view, names);
    let ghost all = rows@;
    for row in it: rows
        invariant
            it.seq() == all,
            ahead == items_ahead(*view),
            all.len() == view.workspaces@.len(),
            forall|i: int| 0 <= i < all.len() ==> is_row(#[trigger] all[i], *view, i, names@[i]@),
            items@.len() == ahead + it.index(),
            view.monitors is Some ==> items@[0] is Diagram,
            items@[ahead - 1] matches MenuItem::Header(text) && text@ == "Workspaces"@,
            forall|i: int|
                0 <= i < it.index() ==> (#[trigger] items@[ahead + i] matches MenuItem::Workspace(
                    row,
                ) && is_row(row, *view, i, names@[i]@)),
    {
        let ghost k = it.index();
        assert(is_row(all[k], *view, k, names@[k]@));
        items.push(MenuItem::Workspace(row));
    }
    if let Some(text) = paused_row(view) {
        items.push(MenuItem::Separator);
        items.push(MenuItem::Plain(text));
    }
    items
}

/// The command a pick of the row with this tag becomes.
pub open spec fn picked(tag: int, now: u64) -> Option<Msg> {
    if 0 <= tag <= 255 {
        Some(Msg::Hotkey(HotkeyAction::WorkspaceSwitchTo(WorkspaceId(tag as u8)), now))
    } else {
        None
    }
}

/// The command a pick of the row with this tag becomes.
pub fn select_workspace(tag: i64, now: u64) -> (r: Option<Msg>)
    ensures
        r == picked(tag as int, now),
{
    if tag >= 0 && tag <= 255 {
        Some(Msg::Hotkey(HotkeyAction::WorkspaceSwitchTo(WorkspaceId(tag as u8)), now))
    } else {
        None
    }
}

/// Picking a row asks for the workspace the row stands for.
pub proof fn law_pick_switches_to_the_row(
    view: MenuBarView,
    i: int,
    row: Row,
    names: Seq<Option<String>>,
    now: u64,
)
    requires
        0 <= i < view.workspaces@.len(),
        is_row(row, view, i, names),
    ensures
        picked(row.tag as int, now) == Some(
            Msg::Hotkey(HotkeyAction::WorkspaceSwitchTo(view.workspaces@[i].id), now),
        ),
{
}

/// The legend is right: the digit a row shows is that of the chord that
/// switches to its workspace.
pub proof fn law_legend_names_the_chord(n: u8, keycode: u16)
    requires
        crate::keys::digit_of(keycode) == Some(n),
    ensures
        1 <= n <= 9,
        crate::keys::binding(
            keycode,
            (crate::keys::Mods { cmd: true, alt: true, shift: false, ctrl: false }),
        ) == Some(
            crate::keys::Chord::Hotkey(HotkeyAction::WorkspaceSwitchTo(WorkspaceId(n))),
        ),
{
}

/// Pausing shows in the words, at their end, and nothing else changes in them.
pub proof fn law_pausing_is_said_last(current: Option<WorkspaceId>, count: nat)
    ensures
        summary_of(current, count, false) == summary_of(current, count, true) + " (paused)"@,
        current matches Some(ws) ==> summary_of(current, count, true) == "Ordo — workspace "@
            + decimal(ws.0 as nat) + " of "@ + decimal(count),
        current is None ==> summary_of(current, count, true) == "Ordo — "@ + decimal(count)
            + " workspaces"@,
{
}

/// The current workspace is a pill with its own number, and of the others those
/// with an app are dots and those without are rings.
pub proof fn law_marks_tell_what_is_on_a_workspace(view: MenuBarView, i: int, n: u8)
    requires
        0 <= i < view.workspaces@.len(),
    ensures
        ({
            let e = view.workspaces@[i];
            &&& mark_of(view, i) == Mark::Current(n) <==> view.current == Some(e.id) && n
                == e.id.0
            &&& mark_of(view, i) == Mark::Occupied <==> view.current != Some(e.id)
                && e.apps@.len() > 0
            &&& mark_of(view, i) == Mark::Empty <==> view.current != Some(e.id) && e.apps@.len()
                == 0
        }),
{
}

/// Every name that could be found is kept, once, and nothing else.
pub proof fn law_names_are_kept_once(names: Seq<Option<String>>, name: Seq<char>)
    ensures
        distinct(names).contains(name) <==> exists|i: int|
            0 <= i < names.len() && (#[trigger] names[i] matches Some(n) && n@ == name),
        distinct(names).no_duplicates(),
    decreases names.len(),
{
    if names.len() > 0 {
        let init = names.drop_last();
        let before = distinct(init);
        let after = distinct(names);
        let last = names.len() - 1;
        law_names_are_kept_once(init, name);
        if after.contains(name) {
            let k = choose|k: int| 0 <= k < after.len() && after[k] == name;
            if k < before.len() {
                assert(before[k] == name);
                let i = choose|i: int|
                    0 <= i < init.len() && (#[trigger] init[i] matches Some(n) && n@ == name);
                assert(names[i] == init[i]);
            } else {
                assert(names[last] matches Some(n) && n@ == name);
            }
        }
        if exists|i: int|
            0 <= i < names.len() && (#[trigger] names[i] matches Some(n) && n@ == name) {
            let i = choose|i: int|
                0 <= i < names.len() && (#[trigger] names[i] matches Some(n) && n@ == name);
            if i < last {
                assert(init[i] == names[i]);
            }
            if before.contains(name) {
                let k = choose|k: int| 0 <= k < before.len() && before[k] == name;
                assert(after[k] == name);
            } else {
                assert(i == last);
                assert(after[before.len() as int] == name);
            }
        }
        assert forall|i: int, j: int|
            0 <= i < after.len() && 0 <= j < after.len() && i != j implies after[i]
            != after[j] by {
            if i < before.len() {
                assert(before[i] == after[i]);
            }
            if j < before.len() {
                assert(before[j] == after[j]);
            }
        }
    }
}

/// Names stay in the order they were first found in.
pub proof fn law_names_keep_their_order(a: Seq<Option<String>>, b: Seq<Option<String>>)
    ensures
        distinct(a).is_prefix_of(distinct(a + b)),
    decreases b.len(),
{
    if b.len() == 0 {
        assert(a + b =~= a);
    } else {
        law_names_keep_their_order(a, b.drop_last());
        assert((a + b).drop_last() =~= a + b.drop_last());
    }
}

/// Up to three apps are spelled out; of more, the first three, and how many are
/// left. One name alone is the whole title.
pub proof fn law_three_apps_are_named(names: Seq<Seq<char>>)
    ensures
        names.len() <= 3 ==> title_of(names) == joined(names, ", "@),
        names.len() > 3 ==> title_of(names) == names[0] + ", "@ + names[1] + ", "@ + names[2]
            + " +"@ + decimal((names.len() - 3) as nat),
        names.len() == 1 ==> title_of(names) == names[0],
{
    if names.len() > 3 {
        let first = names.take(3);
        assert(first.drop_last().drop_last().len() == 1);
        assert(joined(first.drop_last().drop_last(), ", "@) == names[0]);
        assert(joined(first.drop_last(), ", "@) == names[0] + ", "@ + names[1]);
        assert(joined(first, ", "@) == names[0] + ", "@ + names[1] + ", "@ + names[2]);
    }
}

/// A row stands for its own workspace: it is ticked exactly where that is
/// current, can be picked exactly while the daemon is engaged, shows a digit
/// exactly where a digit key jumps there, and says so where it is empty.
pub proof fn law_rows_stand_for_their_workspace(
    row: Row,
    view: MenuBarView,
    i: int,
    names: Seq<Option<String>>,
)
    requires
        0 <= i < view.workspaces@.len(),
        is_row(row, view, i, names),
    ensures
        ({
            let id = view.workspaces@[i].id;
            let number = decimal(id.0 as nat);
            &&& row.tag == id.0
            &&& row.current <==> view.current == Some(id)
            &&& row.enabled <==> view.engaged
            &&& row.empty <==> view.workspaces@[i].apps@.len() == 0
            &&& 1 <= id.0 <= 9 ==> row.key@ == number
            &&& !(1 <= id.0 <= 9) ==> row.key@.len() == 0
            &&& view.current == Some(id) ==> row.symbol@ == number + ".square.fill"@
            &&& view.current != Some(id) ==> row.symbol@ == number + ".square"@
            &&& row.description@ == "Workspace "@ + number
            &&& row.title@ == title_of(distinct(names))
        }),
{
}

/// A tag is picked exactly if it can be a workspace's number, and picks that
/// workspace, at the time of the pick.
pub proof fn law_picks_name_their_workspace(tag: int, now: u64, ws: WorkspaceId, at: u64)
    ensures
        picked(tag, now) == Some(Msg::Hotkey(HotkeyAction::WorkspaceSwitchTo(ws), at)) <==> ws.0
            as int == tag && at == now,
        picked(tag, now) is Some <==> 0 <= tag <= 255,
{
}

} // verus!
