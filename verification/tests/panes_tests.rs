use harpoon::model::{Pane, PaneInfo, PaneManifest, TabInfo, get_focused_tab, get_focused_pane, ids_of, contains_id};
use harpoon::panes::{get_valid_panes, collect_new_panes};
use harpoon::persistence::{PaneBookmark, Persistence, duplicate_all};
use harpoon::sort::sort_by_key;
use harpoon::timestamps::{TimestampEntry, TimestampMap, lookup_timestamp};

fn pi(id: u32, is_plugin: bool, is_focused: bool, title: &str) -> PaneInfo {
    PaneInfo { id, is_plugin, is_focused, title: title.to_string() }
}

fn tab(position: usize, name: &str, active: bool) -> TabInfo {
    TabInfo { position, name: name.to_string(), active }
}

fn pane(info: PaneInfo, t: TabInfo, last_accessed: u64) -> Pane {
    Pane { pane_info: info, tab_info: t, last_accessed }
}

fn bm(tab_name: &str, pane_title: &str) -> PaneBookmark {
    PaneBookmark { tab_name: tab_name.to_string(), pane_title: pane_title.to_string() }
}

fn entry(tab_name: &str, pane_title: &str, pane_id: u32, last_accessed: u64) -> TimestampEntry {
    TimestampEntry { tab_name: tab_name.to_string(), pane_title: pane_title.to_string(), pane_id, last_accessed }
}

#[test]
fn focused_tab_is_first_active() {
    let tabs = vec![tab(0, "a", false), tab(1, "b", true), tab(2, "c", true)];
    assert_eq!(get_focused_tab(&tabs), Some(tab(1, "b", true)));
    assert_eq!(get_focused_tab(&vec![tab(0, "a", false)]), None);
    assert_eq!(get_focused_tab(&vec![]), None);
}

#[test]
fn focused_pane_prefers_focused_terminal() {
    let m = PaneManifest {
        panes: vec![
            (1, vec![pi(9, true, true, "plugin"), pi(1, false, false, "a"), pi(2, false, true, "b")]),
            (0, vec![pi(3, false, false, "c")]),
        ],
    };
    assert_eq!(get_focused_pane(1, &m), Some(pi(2, false, true, "b")));
}

#[test]
fn focused_pane_falls_back_to_first_terminal() {
    let m = PaneManifest { panes: vec![(0, vec![pi(9, true, true, "harpoon"), pi(4, false, false, "x"), pi(5, false, false, "y")])] };
    assert_eq!(get_focused_pane(0, &m), Some(pi(4, false, false, "x")));
    let only_plugins = PaneManifest { panes: vec![(0, vec![pi(9, true, true, "harpoon")])] };
    assert_eq!(get_focused_pane(0, &only_plugins), None);
    assert_eq!(get_focused_pane(3, &m), None);
}

#[test]
fn valid_panes_drop_closed_and_refresh_moved() {
    let tabs = vec![tab(0, "one", true), tab(1, "two renamed", false)];
    let m = PaneManifest {
        panes: vec![
            (0, vec![pi(1, false, true, "shell")]),
            (1, vec![pi(7, true, false, "plugin 2"), pi(2, false, false, "vim edited")]),
        ],
    };
    let kept = vec![
        pane(pi(2, false, false, "vim"), tab(0, "two", false), 5),
        pane(pi(3, false, false, "closed"), tab(0, "one", true), 6),
        pane(pi(1, false, false, "shell"), tab(0, "one", true), 7),
        pane(pi(7, false, false, "terminal seven"), tab(1, "x", false), 8),
    ];
    let valid = get_valid_panes(&kept, &m, &tabs);
    assert_eq!(
        valid,
        vec![
            pane(pi(2, false, false, "vim edited"), tab(1, "two renamed", false), 5),
            pane(pi(1, false, true, "shell"), tab(0, "one", true), 7),
        ]
    );
}

#[test]
fn valid_panes_need_a_known_tab() {
    let tabs = vec![tab(0, "one", true)];
    let m = PaneManifest { panes: vec![(4, vec![pi(1, false, false, "lost")]), (0, vec![pi(1, false, false, "found")])] };
    let kept = vec![pane(pi(1, false, false, "old"), tab(4, "gone", false), 1)];
    assert_eq!(get_valid_panes(&kept, &m, &tabs), vec![pane(pi(1, false, false, "found"), tab(0, "one", true), 1)]);
}

#[test]
fn new_panes_skip_plugins_tracked_and_unknown_tabs() {
    let tabs = vec![tab(0, "one", true), tab(1, "two", false)];
    let m = PaneManifest {
        panes: vec![
            (1, vec![pi(3, false, false, "c"), pi(8, true, false, "p")]),
            (5, vec![pi(6, false, false, "orphan")]),
            (0, vec![pi(1, false, false, "a"), pi(2, false, false, "b")]),
        ],
    };
    let new = collect_new_panes(&m, &tabs, &vec![2]);
    assert_eq!(
        new,
        vec![
            pane(pi(3, false, false, "c"), tab(1, "two", false), 0),
            pane(pi(1, false, false, "a"), tab(0, "one", true), 0),
        ]
    );
}

#[test]
fn ids_and_membership() {
    let ps = vec![pane(pi(4, false, false, "a"), tab(0, "t", true), 0), pane(pi(2, false, false, "b"), tab(0, "t", true), 0)];
    assert_eq!(ids_of(&ps), vec![4, 2]);
    assert!(contains_id(&vec![4, 2], 2));
    assert!(!contains_id(&vec![4, 2], 3));
    assert!(!contains_id(&vec![], 0));
}

#[test]
fn sort_by_tab_position_is_stable() {
    let mut ps = vec![
        pane(pi(1, false, false, "a"), tab(2, "t2", false), 0),
        pane(pi(2, false, false, "b"), tab(0, "t0", false), 0),
        pane(pi(3, false, false, "c"), tab(2, "t2", false), 0),
        pane(pi(4, false, false, "d"), tab(1, "t1", false), 0),
        pane(pi(5, false, false, "e"), tab(0, "t0", false), 0),
    ];
    sort_by_key(&mut ps, false);
    assert_eq!(ids_of(&ps), vec![2, 5, 4, 1, 3]);
}

#[test]
fn sort_by_recency_most_recent_first_and_stable() {
    let mut ps = vec![
        pane(pi(1, false, false, "a"), tab(0, "t", false), 10),
        pane(pi(2, false, false, "b"), tab(0, "t", false), 30),
        pane(pi(3, false, false, "c"), tab(0, "t", false), 10),
        pane(pi(4, false, false, "d"), tab(0, "t", false), 20),
    ];
    sort_by_key(&mut ps, true);
    assert_eq!(ids_of(&ps), vec![2, 4, 1, 3]);
    let mut empty: Vec<Pane> = vec![];
    sort_by_key(&mut empty, true);
    assert!(empty.is_empty());
}

#[test]
fn persistence_change_detection_and_saving() {
    let mut p = Persistence::new();
    let ps = vec![pane(pi(1, false, false, "vim"), tab(0, "code", true), 0)];
    assert!(!p.has_changed(&vec![]));
    assert!(p.has_changed(&ps));
    let saved = p.record_saved(&ps);
    assert_eq!(saved, vec![bm("code", "vim")]);
    assert_eq!(p.last_saved, vec![bm("code", "vim")]);
    assert!(!p.has_changed(&ps));
    let renamed = vec![pane(pi(1, false, false, "nvim"), tab(0, "code", true), 0)];
    assert!(p.has_changed(&renamed));
}

#[test]
fn loaded_bookmarks_are_pending_and_saved() {
    let mut p = Persistence::new();
    p.on_loaded(vec![bm("a", "x"), bm("b", "y")]);
    assert_eq!(p.pending_bookmarks, vec![bm("a", "x"), bm("b", "y")]);
    assert_eq!(p.last_saved, vec![bm("a", "x"), bm("b", "y")]);
    assert_eq!(duplicate_all(&p.last_saved), p.last_saved);
}

#[test]
fn bookmarks_match_live_panes_once() {
    let tabs = vec![tab(0, "code", true), tab(1, "logs", false)];
    let m = PaneManifest {
        panes: vec![
            (0, vec![pi(1, false, false, "vim"), pi(2, false, false, "vim"), pi(9, true, false, "vim")]),
            (1, vec![pi(3, false, false, "tail")]),
        ],
    };
    let kept = vec![pane(pi(1, false, false, "vim"), tab(0, "code", true), 0)];
    let mut p = Persistence::new();
    p.on_loaded(vec![bm("code", "vim"), bm("code", "vim"), bm("logs", "tail"), bm("gone", "x")]);
    let restored = p.match_pending_bookmarks(&kept, &m, &tabs);
    assert_eq!(
        restored,
        vec![
            pane(pi(2, false, false, "vim"), tab(0, "code", true), 0),
            pane(pi(3, false, false, "tail"), tab(1, "logs", false), 0),
        ]
    );
    assert_eq!(p.pending_bookmarks, vec![bm("code", "vim"), bm("gone", "x")]);
    assert_eq!(p.last_saved.len(), 4);
}

#[test]
fn timestamp_lookup_by_id_or_names() {
    let map = TimestampMap { entries: vec![entry("t", "a", 0, 5), entry("t", "b", 7, 9)] };
    assert_eq!(lookup_timestamp(&map, 7, &"x".to_string(), &"y".to_string()), 9);
    assert_eq!(lookup_timestamp(&map, 3, &"t".to_string(), &"a".to_string()), 5);
    assert_eq!(lookup_timestamp(&map, 3, &"t".to_string(), &"z".to_string()), 0);
    assert_eq!(lookup_timestamp(&TimestampMap::new(), 0, &"t".to_string(), &"a".to_string()), 0);
}

#[test]
fn record_focus_updates_entry_with_same_id() {
    let mut map = TimestampMap { entries: vec![entry("t", "old", 4, 1), entry("u", "v", 5, 2)] };
    map.record_focus(4, &"t2".to_string(), &"new".to_string(), 50);
    assert_eq!(map.entries, vec![entry("t2", "new", 4, 50), entry("u", "v", 5, 2)]);
}

#[test]
fn record_focus_replaces_legacy_entry() {
    let mut map = TimestampMap { entries: vec![entry("t", "a", 0, 1), entry("t", "b", 0, 2), entry("t", "a", 8, 3)] };
    map.record_focus(6, &"t".to_string(), &"a".to_string(), 70);
    assert_eq!(map.entries, vec![entry("t", "b", 0, 2), entry("t", "a", 8, 3), entry("t", "a", 6, 70)]);
}

#[test]
fn record_focus_with_id_zero_appends() {
    let mut map = TimestampMap { entries: vec![entry("t", "a", 0, 1)] };
    map.record_focus(0, &"t".to_string(), &"a".to_string(), 9);
    assert_eq!(map.entries, vec![entry("t", "a", 0, 9)]);
}

#[test]
fn recorded_focus_reads_back() {
    let mut map = TimestampMap { entries: vec![entry("t", "other", 2, 1), entry("t", "a", 0, 3)] };
    map.record_focus(6, &"t".to_string(), &"a".to_string(), 70);
    assert_eq!(lookup_timestamp(&map, 6, &"t".to_string(), &"a".to_string()), 70);
}

#[test]
fn recorded_focus_shadowed_by_same_names() {
    let mut map = TimestampMap { entries: vec![entry("t", "a", 5, 1)] };
    map.record_focus(6, &"t".to_string(), &"a".to_string(), 70);
    assert_eq!(lookup_timestamp(&map, 6, &"t".to_string(), &"a".to_string()), 1);
}

#[test]
fn saved_bookmarks_restore_the_same_names() {
    let tabs = vec![tab(0, "code", true), tab(1, "logs", false)];
    let m = PaneManifest {
        panes: vec![
            (1, vec![pi(3, false, false, "tail")]),
            (0, vec![pi(5, false, false, "vim"), pi(1, false, false, "vim"), pi(2, false, false, "vim")]),
        ],
    };
    let live_list = vec![
        pane(pi(2, false, false, "vim"), tab(0, "code", true), 0),
        pane(pi(3, false, false, "tail"), tab(1, "logs", false), 0),
        pane(pi(1, false, false, "vim"), tab(0, "code", true), 0),
    ];
    let mut before = Persistence::new();
    let saved = before.record_saved(&live_list);
    let mut after = Persistence::new();
    after.on_loaded(saved);
    let restored = after.match_pending_bookmarks(&vec![], &m, &tabs);
    let names = |ps: &Vec<Pane>| -> Vec<(String, String)> {
        ps.iter().map(|p| (p.tab_info.name.clone(), p.pane_info.title.clone())).collect()
    };
    assert_eq!(names(&restored), names(&live_list));
    assert_eq!(restored.iter().map(|p| p.pane_info.id).collect::<Vec<_>>(), vec![5, 3, 1]);
    assert!(after.pending_bookmarks.is_empty());
}
