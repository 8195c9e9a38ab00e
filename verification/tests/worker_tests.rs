use harpoon::model::{PaneInfo, PaneManifest, TabInfo};
use harpoon::state::SessionInfo;
use harpoon::timestamps::{TimestampEntry, TimestampMap};
use harpoon::worker::{WorkerAction, WorkerEvent, WorkerState};

fn pi(id: u32, is_plugin: bool, is_focused: bool, title: &str) -> PaneInfo {
    PaneInfo { id, is_plugin, is_focused, title: title.to_string() }
}

fn tabs() -> Vec<TabInfo> {
    vec![TabInfo { position: 0, name: "code".to_string(), active: true }]
}

fn manifest(focused: u32) -> PaneManifest {
    PaneManifest {
        panes: vec![(0, vec![pi(1, false, focused == 1, "vim"), pi(2, false, focused == 2, "shell")])],
    }
}

fn send(w: &mut WorkerState, e: WorkerEvent) -> Vec<WorkerAction> {
    let mut actions = Vec::new();
    w.handle_event(e, &mut actions);
    actions
}

fn entry(tab_name: &str, pane_title: &str, pane_id: u32, last_accessed: u64) -> TimestampEntry {
    TimestampEntry { tab_name: tab_name.to_string(), pane_title: pane_title.to_string(), pane_id, last_accessed }
}

fn session() -> WorkerEvent {
    WorkerEvent::SessionUpdate(vec![SessionInfo { name: "main".to_string(), is_current_session: true }])
}

#[test]
fn worker_loads_timestamps_for_session() {
    let mut w = WorkerState::new(false);
    assert_eq!(send(&mut w, session()), vec![WorkerAction::LoadTimestamps("main".to_string())]);
    assert_eq!(send(&mut w, session()), vec![]);
}

#[test]
fn worker_records_focus_changes() {
    let mut w = WorkerState::new(false);
    send(&mut w, session());
    assert_eq!(send(&mut w, WorkerEvent::TabUpdate(tabs(), 10)), vec![]);
    assert_eq!(send(&mut w, WorkerEvent::PaneUpdate(manifest(1), 20)), vec![WorkerAction::SaveTimestamps("main".to_string())]);
    assert_eq!(w.last_focused_id, Some(1));
    assert_eq!(w.timestamps.entries, vec![entry("code", "vim", 1, 20)]);
    // same focus: nothing changes
    assert_eq!(send(&mut w, WorkerEvent::PaneUpdate(manifest(1), 30)), vec![]);
    assert_eq!(w.timestamps.entries, vec![entry("code", "vim", 1, 20)]);
    send(&mut w, WorkerEvent::PaneUpdate(manifest(2), 40));
    send(&mut w, WorkerEvent::TabUpdate(tabs(), 50));
    send(&mut w, WorkerEvent::PaneUpdate(manifest(1), 60));
    assert_eq!(w.timestamps.entries, vec![entry("code", "vim", 1, 60), entry("code", "shell", 2, 40)]);
}

#[test]
fn worker_debug_logs_focus_changes() {
    let mut w = WorkerState::new(true);
    send(&mut w, session());
    send(&mut w, WorkerEvent::TabUpdate(tabs(), 1));
    assert_eq!(
        send(&mut w, WorkerEvent::PaneUpdate(manifest(2), 77)),
        vec![
            WorkerAction::Log("main".to_string(), "focus changed: pane_id=2 tab=\"code\" title=\"shell\" ts=77".to_string()),
            WorkerAction::SaveTimestamps("main".to_string()),
        ]
    );
}

#[test]
fn worker_without_session_tracks_silently() {
    let mut w = WorkerState::new(true);
    send(&mut w, WorkerEvent::TabUpdate(tabs(), 1));
    assert_eq!(send(&mut w, WorkerEvent::PaneUpdate(manifest(1), 5)), vec![]);
    assert_eq!(w.timestamps.entries, vec![entry("code", "vim", 1, 5)]);
}

#[test]
fn worker_takes_loaded_timestamps() {
    let mut w = WorkerState::new(false);
    let map = TimestampMap { entries: vec![entry("a", "b", 0, 3)] };
    assert_eq!(send(&mut w, WorkerEvent::TimestampsLoaded(map.clone())), vec![]);
    assert_eq!(w.timestamps, map);
    assert_eq!(send(&mut w, WorkerEvent::Other), vec![]);
}

#[test]
fn worker_focus_falls_back_to_first_terminal() {
    let mut w = WorkerState::new(false);
    send(&mut w, WorkerEvent::TabUpdate(tabs(), 1));
    let m = PaneManifest { panes: vec![(0, vec![pi(8, true, true, "harpoon"), pi(2, false, false, "shell")])] };
    let mut actions = Vec::new();
    w.pane_manifest = Some(m);
    w.update_focus(9, &mut actions);
    assert_eq!(w.last_focused_id, Some(2));
}
