//! The menu bar: what it shows of the model, its icon, its menu and its diagram.

use ordo::engine::Msg;
use ordo::menubar::{
    MenuBarView, MonitorEntry, MonitorsView, State, VirtualMonitors, WindowRecord, WorkspaceEntry,
};
use ordo::platform::monitor_map::{
    confirm_detail, confirm_question, describe, dots, plus_at, tile_at, tile_x, Button, MonitorMap,
    Released,
};
use ordo::platform::status_item::{
    apps_title, fill, icon, menu, paused_row, select_workspace, summary, Mark, MenuBar, MenuItem,
};
use ordo::vocab::{HotkeyAction, Mode, MonitorId, Pid, VirtualMonitorId, WindowId, WorkspaceId};

fn record(id: u32, pid: i32, ws: u8, monitor: u8) -> WindowRecord {
    WindowRecord {
        id: WindowId(id),
        app: Pid(pid),
        workspace: WorkspaceId(ws),
        vmonitor: VirtualMonitorId(monitor),
    }
}

/// w1 and w3 (pid 100) on workspace 1 and the left monitor, w2 and w4 (pid 200)
/// on workspace 2 and the right one; two displays, a monitor on each.
fn desk(current: u8) -> State {
    State {
        workspace_count: 3,
        current: Some(WorkspaceId(current)),
        mode: Mode::Active,
        focus_history: vec![WindowId(1)],
        windows: vec![
            record(1, 100, 1, 1),
            record(2, 200, 2, 2),
            record(3, 100, 1, 1),
            record(4, 200, 2, 2),
        ],
        virtual_monitors: Some(VirtualMonitors {
            count: 2,
            viewed: VirtualMonitorId(1),
            enabled: true,
        }),
        displays: vec![MonitorId(1), MonitorId(2)],
        hosts: vec![Some(0), Some(1)],
    }
}

fn monitors_view(
    viewed: u8,
    displays: &[u128],
    // Per monitor: its display, its windows here, its windows everywhere.
    monitors: &[(Option<usize>, usize, usize)],
) -> MonitorsView {
    MonitorsView {
        displays: displays.iter().map(|d| MonitorId(*d)).collect(),
        monitors: monitors
            .iter()
            .enumerate()
            .map(|(i, (display, windows, all_windows))| MonitorEntry {
                id: VirtualMonitorId(i as u8 + 1),
                display: *display,
                windows: *windows,
                all_windows: *all_windows,
            })
            .collect(),
        viewed: VirtualMonitorId(viewed),
        enabled: true,
    }
}

fn entry(n: u8, apps: &[i32]) -> WorkspaceEntry {
    WorkspaceEntry { id: WorkspaceId(n), apps: apps.iter().map(|p| Pid(*p)).collect() }
}

#[test]
fn the_menu_bar_shows_every_workspace_and_follows_a_pick_from_its_menu() {
    // First the startup scene, then a pick from the menu landing on workspace
    // 2, then a rescue graying the whole thing out. Two displays, a monitor on
    // each; the monitors section counts the current workspace's windows on each.
    let rescued = State { mode: Mode::Rescued, ..desk(2) };
    let seen: Vec<MenuBarView> = [desk(1), desk(2), rescued].iter().map(MenuBarView::of).collect();

    let workspaces = vec![entry(1, &[100]), entry(2, &[200]), entry(3, &[])];
    let on_1 = monitors_view(1, &[1, 2], &[(Some(0), 2, 2), (Some(1), 0, 2)]);
    let on_2 = monitors_view(1, &[1, 2], &[(Some(0), 0, 2), (Some(1), 2, 2)]);
    assert_eq!(
        seen,
        vec![
            MenuBarView {
                workspaces: workspaces.clone(),
                current: Some(WorkspaceId(1)),
                engaged: true,
                monitors: Some(on_1),
            },
            MenuBarView {
                workspaces: workspaces.clone(),
                current: Some(WorkspaceId(2)),
                engaged: true,
                monitors: Some(on_2.clone()),
            },
            MenuBarView {
                workspaces,
                current: Some(WorkspaceId(2)),
                engaged: false,
                monitors: Some(on_2),
            },
        ]
    );
    assert!(matches!(
        select_workspace(2, 0),
        Some(Msg::Hotkey(HotkeyAction::WorkspaceSwitchTo(WorkspaceId(2)), 0))
    ));
}

#[test]
fn the_menu_bar_shows_which_monitor_the_one_display_is_showing() {
    // The laptop rig: one display, two virtual monitors. Monitor 2 is hidden
    // with its one window on this workspace; viewing it brings it up and
    // monitor 1's two windows go out of sight in its place.
    let laptop = |viewed: u8, hosts: Vec<Option<usize>>| {
        let mut s = desk(1);
        s.windows[1].workspace = WorkspaceId(1);
        s.displays = vec![MonitorId(1)];
        s.hosts = hosts;
        s.virtual_monitors = Some(VirtualMonitors {
            count: 2,
            viewed: VirtualMonitorId(viewed),
            enabled: true,
        });
        MenuBarView::of(&s).monitors.unwrap()
    };
    assert_eq!(
        vec![laptop(1, vec![Some(0), None]), laptop(2, vec![None, Some(0)])],
        vec![
            monitors_view(1, &[1], &[(Some(0), 2, 2), (None, 1, 2)]),
            monitors_view(2, &[1], &[(None, 2, 2), (Some(0), 1, 2)]),
        ]
    );
}

#[test]
fn the_menus_plus_adds_an_empty_monitor_beside_the_displays() {
    let before = MenuBarView::of(&desk(1)).monitors.unwrap();
    let mut grown = desk(1);
    grown.virtual_monitors = Some(VirtualMonitors {
        count: 3,
        viewed: VirtualMonitorId(1),
        enabled: true,
    });
    let after = MenuBarView::of(&grown).monitors.unwrap();
    assert_eq!(before.monitors.len(), 2);
    assert_eq!(after.monitors[..2], before.monitors[..]);
    let new = &after.monitors[2];
    assert_eq!(
        (new.id, new.display, new.windows, new.all_windows),
        (VirtualMonitorId(3), None, 0, 0)
    );
}

#[test]
fn apps_are_ordered_by_the_window_used_last() {
    let mut s = desk(1);
    s.windows = vec![
        record(1, 100, 1, 1),
        record(2, 200, 1, 1),
        record(3, 300, 1, 1),
        record(4, 200, 1, 1),
        record(5, 400, 9, 1),
    ];
    s.focus_history = vec![WindowId(4), WindowId(1)];
    let view = MenuBarView::of(&s);
    // 200 by way of w4, then 100, then 300, which was never used.
    assert_eq!(view.workspaces[0].apps, [Pid(200), Pid(100), Pid(300)]);
    // A window on a workspace that is not there shows nowhere.
    assert!(view.workspaces.iter().all(|w| !w.apps.contains(&Pid(400))));
}

#[test]
fn a_desk_without_monitors_or_workspace_still_shows() {
    let mut s = desk(1);
    s.current = None;
    s.virtual_monitors = Some(VirtualMonitors {
        count: 0,
        viewed: VirtualMonitorId(1),
        enabled: false,
    });
    let m = MenuBarView::of(&s).monitors.unwrap();
    assert_eq!(m.monitors.len(), 1);
    assert_eq!((m.monitors[0].windows, m.monitors[0].all_windows), (0, 2));
    s.virtual_monitors = None;
    assert!(MenuBarView::of(&s).monitors.is_none());
}

#[test]
fn the_icon_marks_every_workspace() {
    let view = MenuBarView::of(&desk(2));
    assert_eq!(icon(&view), [Mark::Occupied, Mark::Current(2), Mark::Empty]);
    assert_eq!(summary(&view), "Ordo — workspace 2 of 3");
    let paused = MenuBarView { current: None, engaged: false, ..view };
    assert_eq!(summary(&paused), "Ordo — 3 workspaces (paused)");
    assert_eq!(paused_row(&paused), Some("Paused — press ⌃⌥⌘O to resume"));
}

#[test]
fn a_view_is_redrawn_only_when_it_changed() {
    let mut bar = MenuBar::new();
    assert!(bar.show(MenuBarView::of(&desk(1))));
    assert!(!bar.show(MenuBarView::of(&desk(1))));
    assert!(bar.show(MenuBarView::of(&desk(2))));
    let mut moved = desk(2);
    moved.windows[0].vmonitor = VirtualMonitorId(2);
    assert!(bar.show(MenuBarView::of(&moved)));
    assert!(!bar.show(MenuBarView::of(&moved)));
}

#[test]
fn rows_name_their_apps_and_their_chord() {
    let name = |s: &str| Some(s.to_string());
    assert_eq!(
        apps_title(&vec![name("Safari"), name("Slack"), None, name("Safari"), name("Terminal"), name("Mail"), name("Notes")]),
        "Safari, Slack, Terminal +2"
    );
    assert_eq!(apps_title(&vec![name("Safari"), name("Slack")]), "Safari, Slack");
    assert_eq!(apps_title(&vec![]), "");

    let view = MenuBarView::of(&desk(1));
    let rows = fill(&view, &vec![vec![name("Safari")], vec![None], vec![]]);
    assert_eq!(rows.len(), 3);
    assert_eq!((rows[0].title.as_str(), rows[0].key.as_str(), rows[0].tag), ("Safari", "1", 1));
    assert_eq!((rows[0].symbol.as_str(), rows[0].current), ("1.square.fill", true));
    assert_eq!((rows[1].symbol.as_str(), rows[1].description.as_str()), ("2.square", "Workspace 2"));
    assert!(rows[2].empty && rows[2].enabled && !rows[1].empty);

    let ten = MenuBarView { workspaces: vec![entry(10, &[])], ..view };
    assert_eq!(fill(&ten, &vec![vec![]])[0].key, "");
    assert!(select_workspace(256, 0).is_none() && select_workspace(-1, 0).is_none());
}

#[test]
fn the_menu_lists_its_sections_in_order() {
    let shape = |view: &MenuBarView| -> Vec<String> {
        let names = view.workspaces.iter().map(|_| vec![]).collect();
        menu(view, &names)
            .iter()
            .map(|item| match item {
                MenuItem::Diagram => "diagram".to_string(),
                MenuItem::Header(text) => format!("# {text}"),
                MenuItem::Workspace(row) => row.tag.to_string(),
                MenuItem::Separator => "-".to_string(),
                MenuItem::Plain(text) => text.to_string(),
            })
            .collect()
    };
    let view = MenuBarView::of(&desk(1));
    assert_eq!(shape(&view), ["diagram", "# Workspaces", "1", "2", "3"]);
    let paused = MenuBarView { monitors: None, engaged: false, ..view };
    assert_eq!(
        shape(&paused),
        ["# Workspaces", "1", "2", "3", "-", "Paused — press ⌃⌥⌘O to resume"]
    );
}

#[test]
fn the_plus_is_drawn_while_no_tile_is_in_the_hand() {
    let mut map = MonitorMap::new();
    assert!(!map.draws_plus(), "there is nothing to draw it beside");
    map.show(spare(), true, false);
    assert!(map.draws_plus());
    map.mouse_down(30, 20);
    assert!(map.draws_plus(), "nothing has moved yet");
    map.mouse_dragged(true);
    assert!(!map.draws_plus());
    map.mouse_up(110, 20, None);
    assert!(!map.draws_plus(), "the prompt took its place");
    map.show(spare(), false, false);
    assert!(!map.draws_plus());
}

fn spare() -> MonitorsView {
    monitors_view(2, &[1], &[(None, 0, 1), (Some(0), 3, 3), (None, 9, 0)])
}

#[test]
fn the_diagram_is_laid_out_around_what_is_on_screen() {
    let mut map = MonitorMap::new();
    let shown = map.show(spare(), true, false);
    assert_eq!((shown.width, shown.height), (40 + 10 + 3 * 72 + 2 * 10 + 38, 62));
    assert_eq!(shown.frame, Some((102, 82)));
    assert_eq!(shown.tip, Some("Drag a monitor onto another to merge them; + adds a monitor"));
    assert_eq!(shown.label, "Monitors: monitor 1 hidden, monitor 2 on display 1, monitor 3 hidden");
    assert_eq!(describe(&spare()), shown.label);
    let full = monitors_view(1, &[1, 2], &[(Some(0), 0, 0), (Some(1), 0, 0)]);
    assert_eq!(map.show(full, true, false).tip, Some("+ adds a monitor"));
    let asleep = monitors_view(1, &[], &[(None, 0, 0)]);
    let shown = map.show(asleep, false, false);
    assert_eq!((shown.frame, shown.tip, shown.width), (None, None, 122));
}

#[test]
fn points_hit_the_tiles_they_are_on() {
    assert_eq!(tile_x(0), 25);
    assert_eq!(tile_at(2, 25, 9), Some(0));
    assert_eq!(tile_at(2, 96, 50), Some(0));
    assert_eq!(tile_at(2, 97, 20), None);
    assert_eq!(tile_at(2, 107, 20), Some(1));
    assert_eq!(tile_at(1, 107, 20), None);
    assert_eq!(tile_at(2, 30, 51), None);
    assert!(plus_at(1, 107, 20) && plus_at(1, 134, 20) && !plus_at(1, 135, 20));
}

#[test]
fn a_drop_asks_before_it_merges() {
    let mut map = MonitorMap::new();
    map.show(spare(), true, false);
    assert!(!map.mouse_down(30, 20));
    assert!(map.mouse_dragged(true));
    let tiles = map.draw_tiles(110, 20);
    assert!(tiles[0].lifted && tiles[0].shown && tiles[1].target && !tiles[2].target);
    assert_eq!(tiles[2].dots, 6);
    assert!(matches!(map.mouse_up(110, 20, None), Released::Ask));
    assert!(map.draw_tiles(0, 0).is_empty());
    // A view change in the open menu keeps the prompt; the frame stays hidden.
    assert_eq!(map.show(spare(), true, true).frame, None);
    assert!(matches!(map.mouse_up(0, 0, None), Released::Nothing));
    match map.mouse_up(0, 0, Some(Button::Merge)) {
        Released::Command(HotkeyAction::MergeMonitors { from, into }) => {
            assert_eq!((from, into), (VirtualMonitorId(1), VirtualMonitorId(2)));
        }
        other => panic!("{other:?}"),
    }
    let v = spare();
    assert_eq!(confirm_question(v.monitors[0], v.monitors[1]), "Merge monitor 1 into 2?");
    assert_eq!(confirm_detail(v.monitors[0]), "1 window moves, on every workspace");
    assert_eq!(confirm_detail(v.monitors[1]), "3 windows move, on every workspace");
    assert_eq!(confirm_detail(v.monitors[2]), "No windows to move");
    assert_eq!((dots(2), dots(60)), (2, 6));
}

#[test]
fn a_prompt_can_be_cancelled_and_does_not_outlive_its_tiles() {
    let mut map = MonitorMap::new();
    map.show(spare(), true, false);
    map.mouse_down(30, 20);
    map.mouse_dragged(true);
    map.mouse_up(190, 20, None);
    assert_eq!(map.confirm, Some((0, 2)));
    assert!(matches!(map.mouse_up(0, 0, Some(Button::Cancel)), Released::Show(s) if s.frame.is_some()));
    assert_eq!(map.confirm, None);
    // A press that never moved, or came back, is no drop.
    map.mouse_down(30, 20);
    assert!(matches!(map.mouse_up(110, 20, None), Released::Redraw));
    map.mouse_down(30, 20);
    map.mouse_dragged(true);
    assert!(matches!(map.mouse_up(30, 20, None), Released::Redraw));
    // Other tiles, other indices.
    map.mouse_down(30, 20);
    map.mouse_dragged(true);
    map.mouse_up(110, 20, None);
    map.show(monitors_view(1, &[1], &[(Some(0), 0, 0)]), true, true);
    assert_eq!(map.confirm, None);
}

#[test]
fn a_cancelled_prompt_leaves_the_diagram_as_engaged_as_it_was() {
    let mut map = MonitorMap::new();
    map.show(spare(), true, false);
    map.mouse_down(30, 20);
    map.mouse_dragged(true);
    map.mouse_up(110, 20, None);
    // Displays came while the prompt stood: nothing is spare any more.
    let full = monitors_view(2, &[1, 2, 3], &[(Some(0), 0, 1), (Some(1), 3, 3), (Some(2), 9, 0)]);
    map.show(full, true, true);
    assert_eq!(map.confirm, Some((0, 1)));
    match map.mouse_up(0, 0, Some(Button::Cancel)) {
        Released::Show(shown) => assert_eq!(shown.tip, Some("+ adds a monitor")),
        other => panic!("{other:?}"),
    }
    assert!(map.engaged && !map.mergeable);
    assert!(map.mouse_down(tile_x(3), 20), "the plus still works");
}

#[test]
fn the_plus_adds_when_pressed_and_let_go_on_it() {
    let mut map = MonitorMap::new();
    map.show(spare(), true, false);
    let plus = tile_x(3);
    assert!(map.mouse_down(plus, 20));
    assert!(matches!(map.mouse_up(plus, 20, None), Released::Command(HotkeyAction::AddMonitor)));
    map.mouse_down(plus, 20);
    assert!(matches!(map.mouse_up(0, 0, None), Released::Redraw));
    map.show(spare(), false, false);
    assert!(!map.mouse_down(plus, 20));
    assert!(matches!(map.mouse_up(plus, 20, None), Released::Nothing));
}
