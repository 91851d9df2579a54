use robrix::dock::{validate_and_repair_dock_state, DockIds, DockItem, SavedDockState, SelectedRoom, SplitLayout};

const ROOT: u64 = 1;
const HOME_TAB: u64 = 2;
const MAIN_TABS: u64 = 3;
const SIDEBAR_TAB: u64 = 4;
const SIDEBAR_TABS: u64 = 5;

fn ids() -> DockIds {
    DockIds {
        root: ROOT,
        home_tab: HOME_TAB,
        main_tabs: MAIN_TABS,
        rooms_sidebar_tab: SIDEBAR_TAB,
        rooms_sidebar_tabs: SIDEBAR_TABS,
        permanent_tab: 100,
        closeable_tab: 101,
        welcome_screen: 102,
        rooms_sidebar: 103,
    }
}

fn room(tab_id: u64, name: &str) -> SelectedRoom {
    SelectedRoom { tab_id, key: format!("room:{}", name), display_name: name.to_string(), dock_kind: 200 }
}

fn tab(name: &str, template: u64, kind: u64) -> DockItem {
    DockItem::Tab { name: name.to_string(), template, kind }
}

fn tabs(ids: Vec<u64>, selected: usize) -> DockItem {
    DockItem::Tabs { tabs: ids, selected, closable: true, hide_tab_bar: false }
}

fn healthy_items() -> Vec<(u64, DockItem)> {
    vec![
        (ROOT, DockItem::Splitter { layout: SplitLayout::SidebarDefault, a: SIDEBAR_TABS, b: MAIN_TABS }),
        (SIDEBAR_TABS, tabs(vec![SIDEBAR_TAB], 0)),
        (MAIN_TABS, tabs(vec![HOME_TAB, 20], 1)),
        (HOME_TAB, tab("Home", 100, 102)),
        (SIDEBAR_TAB, tab("Rooms", 100, 103)),
        (20, tab("General", 101, 200)),
    ]
}

fn item<'a>(state: &'a SavedDockState, id: u64) -> Option<&'a DockItem> {
    state.dock_items.iter().find(|(k, _)| *k == id).map(|(_, v)| v)
}

#[test]
fn a_healthy_layout_needs_no_repair() {
    let mut state = SavedDockState {
        dock_items: healthy_items(),
        open_rooms: vec![(20, room(20, "General"))],
        room_order: vec![room(20, "General")],
        selected_room: Some(room(20, "General")),
    };
    assert_eq!(validate_and_repair_dock_state(&mut state, &ids()), Ok(false));
    assert_eq!(state.dock_items.len(), 6);
    assert_eq!(state.room_order.len(), 1);
}

#[test]
fn repair_drops_orphans_and_brings_back_lost_rooms() {
    let mut items = healthy_items();
    items.push((99, tabs(vec![], 0)));
    let mut state = SavedDockState {
        dock_items: items,
        open_rooms: vec![(20, room(20, "General")), (30, room(30, "Random"))],
        room_order: vec![room(20, "General")],
        selected_room: Some(room(30, "Random")),
    };
    assert_eq!(validate_and_repair_dock_state(&mut state, &ids()), Ok(true));
    assert!(item(&state, 99).is_none());
    match item(&state, MAIN_TABS) {
        Some(DockItem::Tabs { tabs, selected, .. }) => {
            assert!(tabs.contains(&HOME_TAB));
            assert!(tabs.contains(&20));
            let pos = tabs.iter().position(|t| *t == 30).expect("the lost room's tab is back in the main tab bar");
            assert_eq!(*selected, pos);
        }
        _ => panic!("the main tab bar is missing"),
    }
    assert!(matches!(item(&state, 30), Some(DockItem::Tab { .. })));
    let order: Vec<u64> = state.room_order.iter().map(|r| r.tab_id).collect();
    assert_eq!(order, vec![20, 30]);
    assert_eq!(state.open_rooms.len(), 2);
    assert_eq!(state.selected_room.as_ref().map(|r| r.tab_id), Some(30));
}

#[test]
fn repair_restores_the_fixed_tabs() {
    let mut state = SavedDockState {
        dock_items: vec![
            (ROOT, DockItem::Splitter { layout: SplitLayout::Kept(7), a: SIDEBAR_TABS, b: MAIN_TABS }),
            (SIDEBAR_TABS, tabs(vec![], 0)),
            (MAIN_TABS, tabs(vec![], 0)),
        ],
        open_rooms: vec![],
        room_order: vec![],
        selected_room: None,
    };
    assert_eq!(validate_and_repair_dock_state(&mut state, &ids()), Ok(true));
    assert!(matches!(item(&state, HOME_TAB), Some(DockItem::Tab { .. })));
    assert!(matches!(item(&state, SIDEBAR_TAB), Some(DockItem::Tab { .. })));
    match item(&state, MAIN_TABS) {
        Some(DockItem::Tabs { tabs, .. }) => assert_eq!(tabs, &vec![HOME_TAB]),
        _ => panic!("the main tab bar is missing"),
    }
    match item(&state, SIDEBAR_TABS) {
        Some(DockItem::Tabs { tabs, .. }) => assert_eq!(tabs, &vec![SIDEBAR_TAB]),
        _ => panic!("the sidebar tab bar is missing"),
    }
}

#[test]
fn an_unreachable_root_cannot_be_repaired() {
    let mut state = SavedDockState {
        dock_items: vec![(MAIN_TABS, tabs(vec![HOME_TAB], 0)), (HOME_TAB, tab("Home", 100, 102))],
        open_rooms: vec![],
        room_order: vec![],
        selected_room: None,
    };
    assert!(validate_and_repair_dock_state(&mut state, &ids()).is_err());
}

#[test]
fn a_cycle_cannot_be_repaired() {
    let mut state = SavedDockState {
        dock_items: vec![
            (ROOT, DockItem::Splitter { layout: SplitLayout::SidebarDefault, a: SIDEBAR_TABS, b: 6 }),
            (6, DockItem::Splitter { layout: SplitLayout::SidebarDefault, a: MAIN_TABS, b: ROOT }),
            (SIDEBAR_TABS, tabs(vec![SIDEBAR_TAB], 0)),
            (MAIN_TABS, tabs(vec![HOME_TAB], 0)),
            (HOME_TAB, tab("Home", 100, 102)),
            (SIDEBAR_TAB, tab("Rooms", 100, 103)),
        ],
        open_rooms: vec![],
        room_order: vec![],
        selected_room: None,
    };
    assert_eq!(validate_and_repair_dock_state(&mut state, &ids()), Err("dock item graph contains a cycle"));
}

use robrix::dock::{plan_restore, RestorePlan};
use robrix::home_navigation::{space_switch, SelectedTab};

#[test]
fn restore_plans() {
    assert!(matches!(plan_restore(None, &ids()), RestorePlan::UseDefault));
    let empty = SavedDockState { dock_items: vec![], open_rooms: vec![], room_order: vec![], selected_room: None };
    assert!(matches!(plan_restore(Some(empty), &ids()), RestorePlan::UseDefault));
    let healthy = SavedDockState {
        dock_items: healthy_items(),
        open_rooms: vec![(20, room(20, "General"))],
        room_order: vec![room(20, "General")],
        selected_room: Some(room(20, "General")),
    };
    assert!(matches!(plan_restore(Some(healthy), &ids()), RestorePlan::Restore { repaired: false, .. }));
    let broken = SavedDockState {
        dock_items: vec![(MAIN_TABS, tabs(vec![HOME_TAB], 0))],
        open_rooms: vec![(20, room(20, "General"))],
        room_order: vec![room(20, "General")],
        selected_room: None,
    };
    match plan_restore(Some(broken), &ids()) {
        RestorePlan::Fallback { reason, selected_room, room_order } => {
            assert_eq!(reason, "root dock item is missing");
            assert!(selected_room.is_none());
            assert_eq!(room_order.len(), 1);
        }
        _ => panic!("expected the fallback"),
    }
}

#[test]
fn switching_spaces() {
    assert_eq!(space_switch(&SelectedTab::Space("!a:x".to_string()), None), Some(Some("!a:x".to_string())));
    assert_eq!(space_switch(&SelectedTab::Space("!a:x".to_string()), Some("!b:x")), Some(Some("!a:x".to_string())));
    assert_eq!(space_switch(&SelectedTab::Space("!a:x".to_string()), Some("!a:x")), None);
    assert_eq!(space_switch(&SelectedTab::Home, Some("!a:x")), Some(None));
    assert_eq!(space_switch(&SelectedTab::Home, None), None);
    assert_eq!(space_switch(&SelectedTab::Settings, Some("!a:x")), None);
}
