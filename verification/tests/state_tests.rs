use harpoon::model::{Pane, PaneInfo, PaneManifest, TabInfo};
use harpoon::persistence::PaneBookmark;
use harpoon::state::{Action, Event, Key, SessionInfo, State, config_flag};
use harpoon::timestamps::{TimestampEntry, TimestampMap};

fn pi(id: u32, is_plugin: bool, is_focused: bool, title: &str) -> PaneInfo {
    PaneInfo { id, is_plugin, is_focused, title: title.to_string() }
}

fn tab(position: usize, name: &str, active: bool) -> TabInfo {
    TabInfo { position, name: name.to_string(), active }
}

fn pane(info: PaneInfo, t: TabInfo, last_accessed: u64) -> Pane {
    Pane { pane_info: info, tab_info: t, last_accessed }
}

fn bm(tab_name: &str, pane_title: &str) -> PaneBookmark {
    PaneBookmark { tab_name: tab_name.to_string(), pane_title: pane_title.to_string() }
}

fn tabs() -> Vec<TabInfo> {
    vec![tab(0, "code", true), tab(1, "logs", false)]
}

fn manifest() -> PaneManifest {
    PaneManifest {
        panes: vec![
            (1, vec![pi(3, false, true, "tail")]),
            (0, vec![pi(9, true, true, "harpoon"), pi(1, false, false, "vim"), pi(2, false, false, "shell")]),
        ],
    }
}

fn session(name: &str) -> Event {
    Event::SessionUpdate(vec![
        SessionInfo { name: "other".to_string(), is_current_session: false },
        SessionInfo { name: name.to_string(), is_current_session: true },
    ])
}

fn send(s: &mut State, e: Event) -> (bool, Vec<Action>) {
    let mut actions = Vec::new();
    let render = s.handle_event(e, &mut actions);
    (render, actions)
}

fn key(s: &mut State, k: Key, now: u64) -> (bool, Vec<Action>) {
    send(s, Event::Key(k, now))
}

fn ids(s: &State) -> Vec<u32> {
    s.panes.iter().map(|p| p.pane_info.id).collect()
}

/// A state with session "main", the tabs and the manifest.
fn started(recent: bool) -> State {
    let mut s = State::new(recent);
    send(&mut s, session("main"));
    send(&mut s, Event::TabUpdate(tabs()));
    send(&mut s, Event::PaneUpdate(manifest()));
    s
}

#[test]
fn layout_updates_record_focused_pane() {
    let mut s = State::new(false);
    assert_eq!(send(&mut s, Event::TabUpdate(tabs())), (true, vec![]));
    assert!(s.focused_pane.is_none());
    assert_eq!(send(&mut s, Event::PaneUpdate(manifest())), (true, vec![]));
    assert_eq!(s.focused_pane, Some(pane(pi(1, false, false, "vim"), tab(0, "code", true), 0)));
    assert!(s.panes.is_empty());
    assert_eq!(s.selected, 0);
}

#[test]
fn session_update_loads_bookmarks_once() {
    let mut s = State::new(false);
    assert_eq!(send(&mut s, session("main")), (false, vec![Action::LoadBookmarks("main".to_string())]));
    assert_eq!(s.session_name, Some("main".to_string()));
    assert_eq!(send(&mut s, session("again")), (false, vec![]));
    assert_eq!(s.session_name, Some("main".to_string()));
}

#[test]
fn session_update_without_current_session() {
    let mut s = State::new(false);
    let e = Event::SessionUpdate(vec![SessionInfo { name: "x".to_string(), is_current_session: false }]);
    assert_eq!(send(&mut s, e), (false, vec![]));
    assert!(s.session_name.is_none());
}

#[test]
fn session_update_in_recent_mode_loads_timestamps() {
    let mut s = State::new(true);
    assert_eq!(
        send(&mut s, session("main")),
        (false, vec![Action::LoadBookmarks("main".to_string()), Action::LoadTimestamps("main".to_string())])
    );
}

#[test]
fn permission_granted_renames_pane() {
    let mut s = State::new(false);
    assert_eq!(send(&mut s, Event::PermissionGranted), (false, vec![Action::RenamePluginPane]));
    assert_eq!(send(&mut s, Event::Other), (false, vec![]));
}

#[test]
fn add_focused_pane_saves_and_hides() {
    let mut s = started(false);
    let (render, actions) = key(&mut s, Key::Char('a'), 100);
    assert!(render);
    assert_eq!(actions, vec![Action::SaveBookmarks("main".to_string()), Action::HideSelf]);
    assert_eq!(s.panes, vec![pane(pi(1, false, false, "vim"), tab(0, "code", true), 100)]);
    assert_eq!(s.persistence.last_saved, vec![bm("code", "vim")]);
    // adding it again changes nothing
    assert_eq!(key(&mut s, Key::Char('a'), 200), (true, vec![Action::HideSelf]));
    assert_eq!(s.panes.len(), 1);
}

#[test]
fn add_without_session_does_not_save() {
    let mut s = State::new(false);
    send(&mut s, Event::TabUpdate(tabs()));
    send(&mut s, Event::PaneUpdate(manifest()));
    assert_eq!(key(&mut s, Key::Char('a'), 1), (true, vec![Action::HideSelf]));
    assert_eq!(s.panes.len(), 1);
    assert!(s.persistence.last_saved.is_empty());
}

#[test]
fn add_all_panes_sorted_by_tab() {
    let mut s = started(false);
    let (render, actions) = key(&mut s, Key::Char('A'), 5);
    assert!(render);
    assert_eq!(actions, vec![Action::SaveBookmarks("main".to_string()), Action::HideSelf]);
    assert_eq!(ids(&s), vec![1, 2, 3]);
    assert!(s.panes.iter().all(|p| p.last_accessed == 0));
    assert_eq!(s.persistence.last_saved, vec![bm("code", "vim"), bm("code", "shell"), bm("logs", "tail")]);
}

#[test]
fn navigation_wraps_around() {
    let mut s = started(false);
    key(&mut s, Key::Char('A'), 0);
    s.selected = 0;
    assert_eq!(key(&mut s, Key::Down, 0), (true, vec![]));
    assert_eq!(s.selected, 1);
    key(&mut s, Key::Char('j'), 0);
    assert_eq!(s.selected, 2);
    key(&mut s, Key::Down, 0);
    assert_eq!(s.selected, 0);
    assert_eq!(key(&mut s, Key::Up, 0), (true, vec![]));
    assert_eq!(s.selected, 2);
    key(&mut s, Key::Char('k'), 0);
    assert_eq!(s.selected, 1);
}

#[test]
fn navigation_on_empty_list_does_nothing() {
    let mut s = started(false);
    assert_eq!(key(&mut s, Key::Down, 0), (false, vec![]));
    assert_eq!(key(&mut s, Key::Up, 0), (false, vec![]));
    assert_eq!(s.selected, 0);
}

#[test]
fn delete_selected_and_clamp() {
    let mut s = started(false);
    key(&mut s, Key::Char('A'), 0);
    s.selected = 2;
    let (render, actions) = key(&mut s, Key::Char('d'), 0);
    assert!(render);
    assert_eq!(actions, vec![Action::SaveBookmarks("main".to_string())]);
    assert_eq!(ids(&s), vec![1, 2]);
    assert_eq!(s.selected, 1);
    assert_eq!(s.persistence.last_saved, vec![bm("code", "vim"), bm("code", "shell")]);
}

#[test]
fn delete_on_empty_list() {
    let mut s = started(false);
    assert_eq!(key(&mut s, Key::Char('d'), 0), (true, vec![]));
}

#[test]
fn enter_focuses_selected_pane() {
    let mut s = started(false);
    key(&mut s, Key::Char('A'), 0);
    s.selected = 1;
    let (render, actions) = key(&mut s, Key::Enter, 500);
    assert!(!render);
    assert_eq!(
        actions,
        vec![Action::SaveBookmarks("main".to_string()), Action::HideSelf, Action::FocusTerminalPane(2)]
    );
    assert_eq!(s.panes[1].last_accessed, 500);
    s.selected = 0;
    let (_, actions) = key(&mut s, Key::Char('l'), 600);
    assert_eq!(actions[2], Action::FocusTerminalPane(1));
}

#[test]
fn enter_with_nothing_selected() {
    let mut s = started(false);
    assert_eq!(key(&mut s, Key::Enter, 1), (false, vec![]));
}

#[test]
fn close_keys_hide() {
    let mut s = started(false);
    assert_eq!(key(&mut s, Key::Esc, 0), (false, vec![Action::HideSelf]));
    assert_eq!(key(&mut s, Key::Char('c'), 0), (false, vec![Action::HideSelf]));
    assert_eq!(key(&mut s, Key::Char('z'), 0), (false, vec![]));
}

#[test]
fn search_filters_and_exits() {
    let mut s = started(false);
    key(&mut s, Key::Char('A'), 0);
    assert_eq!(key(&mut s, Key::Char('/'), 0), (true, vec![]));
    assert!(s.search_mode);
    assert_eq!(s.display_indices(), vec![0, 1, 2]);
    assert_eq!(key(&mut s, Key::Char('H'), 0), (true, vec![]));
    assert_eq!(s.search_query, "H");
    assert_eq!(s.display_indices(), vec![1]);
    assert_eq!(s.display_len(), 1);
    assert_eq!(s.selected_pane_index(), Some(1));
    key(&mut s, Key::Char('x'), 0);
    assert_eq!(s.display_len(), 0);
    assert_eq!(s.selected_pane_index(), None);
    assert_eq!(key(&mut s, Key::Backspace, 0), (true, vec![]));
    assert_eq!(s.search_query, "H");
    assert!(s.search_mode);
    key(&mut s, Key::Backspace, 0);
    assert_eq!(s.search_query, "");
    assert!(!s.search_mode);
}

#[test]
fn search_escape_clears_query() {
    let mut s = started(false);
    key(&mut s, Key::Char('/'), 0);
    key(&mut s, Key::Char('c'), 0);
    key(&mut s, Key::Char('j'), 0);
    assert_eq!(s.search_query, "cj");
    assert_eq!(key(&mut s, Key::Esc, 0), (true, vec![]));
    assert!(!s.search_mode);
    assert_eq!(s.search_query, "");
    assert_eq!(s.selected, 0);
}

#[test]
fn search_backspace_on_empty_query_leaves_search() {
    let mut s = started(false);
    key(&mut s, Key::Char('/'), 0);
    assert_eq!(key(&mut s, Key::Backspace, 0), (true, vec![]));
    assert!(!s.search_mode);
}

#[test]
fn search_enter_jumps_and_clears() {
    let mut s = started(false);
    key(&mut s, Key::Char('A'), 0);
    key(&mut s, Key::Char('/'), 0);
    key(&mut s, Key::Char('t'), 0);
    key(&mut s, Key::Char('l'), 0);
    assert_eq!(s.display_indices(), vec![2]);
    let (render, actions) = key(&mut s, Key::Enter, 42);
    assert!(!render);
    assert_eq!(
        actions,
        vec![Action::SaveBookmarks("main".to_string()), Action::HideSelf, Action::FocusTerminalPane(3)]
    );
    assert!(!s.search_mode);
    assert_eq!(s.search_query, "");
    assert_eq!(s.panes[2].last_accessed, 42);
}

#[test]
fn search_navigation_and_other_keys() {
    let mut s = started(false);
    key(&mut s, Key::Char('A'), 0);
    key(&mut s, Key::Char('/'), 0);
    assert_eq!(key(&mut s, Key::Down, 0), (true, vec![]));
    assert_eq!(s.selected, 1);
    assert_eq!(key(&mut s, Key::Up, 0), (true, vec![]));
    assert_eq!(s.selected, 0);
    assert_eq!(key(&mut s, Key::Other, 0), (false, vec![]));
}

#[test]
fn cursor_follows_focused_pane() {
    let mut s = started(false);
    key(&mut s, Key::Char('A'), 0);
    let mut m = manifest();
    m.panes[1].1[1].is_focused = false;
    m.panes[1].1[2].is_focused = true;
    send(&mut s, Event::PaneUpdate(m));
    assert_eq!(s.focused_pane.as_ref().map(|p| p.pane_info.id), Some(2));
    assert_eq!(s.selected, 1);
}

#[test]
fn closed_panes_are_dropped_and_saved() {
    let mut s = started(false);
    key(&mut s, Key::Char('A'), 0);
    let m = PaneManifest {
        panes: vec![(0, vec![pi(1, false, true, "vim"), pi(2, false, false, "shell")]), (1, vec![])],
    };
    let (render, actions) = send(&mut s, Event::PaneUpdate(m));
    assert!(render);
    assert_eq!(actions, vec![Action::SaveBookmarks("main".to_string())]);
    assert_eq!(ids(&s), vec![1, 2]);
}

#[test]
fn renamed_tab_propagates() {
    let mut s = started(false);
    key(&mut s, Key::Char('A'), 0);
    send(&mut s, Event::TabUpdate(vec![tab(0, "code", true), tab(1, "server logs", false)]));
    assert_eq!(s.panes[2].tab_info.name, "server logs");
    assert_eq!(s.persistence.last_saved[2], bm("server logs", "tail"));
}

#[test]
fn bookmarks_restore_panes() {
    let mut s = started(false);
    let (render, actions) = send(&mut s, Event::BookmarksLoaded(vec![bm("logs", "tail"), bm("code", "shell"), bm("x", "y")]));
    assert!(render);
    assert_eq!(actions, vec![Action::SaveBookmarks("main".to_string())]);
    assert_eq!(ids(&s), vec![2, 3]);
    assert_eq!(s.persistence.pending_bookmarks, vec![bm("x", "y")]);
}

#[test]
fn recent_mode_merges_timestamps_and_hides_focused() {
    let mut s = State::new(true);
    send(&mut s, session("main"));
    let (_, actions) = send(&mut s, Event::TabUpdate(tabs()));
    assert_eq!(actions, vec![Action::LoadTimestamps("main".to_string())]);
    send(&mut s, Event::PaneUpdate(manifest()));
    assert!(s.panes.is_empty());
    let map = TimestampMap {
        entries: vec![
            TimestampEntry { tab_name: "code".to_string(), pane_title: "shell".to_string(), pane_id: 0, last_accessed: 30 },
            TimestampEntry { tab_name: "x".to_string(), pane_title: "y".to_string(), pane_id: 3, last_accessed: 50 },
            TimestampEntry { tab_name: "code".to_string(), pane_title: "vim".to_string(), pane_id: 1, last_accessed: 10 },
        ],
    };
    let (render, actions) = send(&mut s, Event::TimestampsLoaded(Some(map)));
    assert!(render);
    assert_eq!(actions, vec![Action::SaveBookmarks("main".to_string())]);
    assert!(s.timestamps_loaded);
    assert_eq!(ids(&s), vec![3, 2, 1]);
    assert_eq!(s.panes.iter().map(|p| p.last_accessed).collect::<Vec<_>>(), vec![50, 30, 10]);
    assert_eq!(s.selected, 0);
    // the focused pane (vim, id 1) is hidden
    assert_eq!(s.display_indices(), vec![0, 1]);
}

#[test]
fn timestamps_that_fail_to_parse_keep_old_ones() {
    let mut s = State::new(true);
    send(&mut s, session("main"));
    send(&mut s, Event::TabUpdate(tabs()));
    send(&mut s, Event::PaneUpdate(manifest()));
    send(&mut s, Event::TimestampsLoaded(None));
    assert!(s.timestamps_loaded);
    assert!(s.panes.is_empty());
}

#[test]
fn render_plan_lists_panes() {
    let mut s = started(false);
    key(&mut s, Key::Char('A'), 0);
    s.selected = 1;
    let plan = s.render(10, 40);
    assert_eq!(plan.title, "==== 3 panes ====");
    assert_eq!(plan.title_x, 11);
    assert_eq!(plan.lines.len(), 3);
    assert_eq!(plan.lines[0].text, "code | vim");
    assert_eq!(plan.lines[2].text, "logs | tail");
    assert!(!plan.lines[0].selected);
    assert!(plan.lines[1].selected);
    assert!(plan.lines.iter().all(|l| l.highlights.is_empty()));
    assert_eq!(plan.hint, "<a> add <d> del <Enter> go <Esc>");
    assert_eq!(plan.hint_ranges, vec![(0, 3), (8, 11), (16, 23), (27, 32)]);
    assert_eq!(plan.hint_y, 9);
    let tiny = s.render(0, 5);
    assert_eq!(tiny.title_x, 0);
    assert_eq!(tiny.hint_y, 0);
}

#[test]
fn render_plan_in_search_mode() {
    let mut s = started(false);
    key(&mut s, Key::Char('A'), 0);
    key(&mut s, Key::Char('/'), 0);
    key(&mut s, Key::Char('V'), 0);
    let plan = s.render(5, 80);
    assert_eq!(plan.title, "/V");
    assert_eq!(plan.title_x, 0);
    assert_eq!(plan.lines.len(), 1);
    assert_eq!(plan.lines[0].text, "code | vim");
    assert_eq!(plan.lines[0].highlights, vec![(7, 8)]);
    assert_eq!(plan.hint, "<a> add pane, <A> add all, <d> delete, <j/k> navigate, <Enter> focus, <Esc> close");
}

#[test]
fn pane_label_format() {
    assert_eq!(pane(pi(1, false, false, "vim"), tab(0, "code", true), 0).label(), "code | vim");
}

#[test]
fn configuration_flag() {
    assert!(config_flag(Some(&"true".to_string())));
    assert!(!config_flag(Some(&"TRUE".to_string())));
    assert!(!config_flag(Some(&"".to_string())));
    assert!(!config_flag(None));
}

#[test]
fn clamp_and_select_directly() {
    let mut s = started(false);
    key(&mut s, Key::Char('A'), 0);
    s.selected = 7;
    s.clamp_selected();
    assert_eq!(s.selected, 2);
    s.select_down();
    assert_eq!(s.selected, 0);
    s.select_up();
    assert_eq!(s.selected, 2);
    s.sort_panes();
    assert_eq!(ids(&s), vec![1, 2, 3]);
}

#[test]
fn adding_all_twice_tracks_each_pane_once() {
    let mut s = started(false);
    key(&mut s, Key::Char('a'), 3);
    key(&mut s, Key::Char('A'), 4);
    key(&mut s, Key::Char('A'), 5);
    assert_eq!(ids(&s), vec![1, 2, 3]);
    assert_eq!(s.panes[0].last_accessed, 3);
}

#[test]
fn typing_never_shows_more() {
    let mut s = started(false);
    key(&mut s, Key::Char('A'), 0);
    key(&mut s, Key::Char('/'), 0);
    let mut shown = s.display_indices();
    assert_eq!(shown, vec![0, 1, 2]);
    for c in ['s', 'H', 'l', 'q'] {
        key(&mut s, Key::Char(c), 0);
        let now = s.display_indices();
        assert!(now.iter().all(|i| shown.contains(i)));
        shown = now;
    }
    assert!(shown.is_empty());
}
