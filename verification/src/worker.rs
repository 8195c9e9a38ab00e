//! The background tracker: it watches which terminal pane has focus and
//! records when each pane was last focused.
use vstd::prelude::*;
use crate::find::{first_such, lemma_find_first_is, lemma_find_first_none};
use crate::model::{PaneInfo, PaneManifest, TabInfo, get_focused_tab, get_focused_pane, spec_focused_tab, spec_focused_pane};
use crate::paths::focus_message;
use crate::state::{SessionInfo, is_current_session};
use crate::text::decimal;
use crate::timestamps::{TimestampEntry, TimestampMap, recorded};

verus! {

/// An event from the host, with what the host side has already read or
/// parsed; layout changes carry the time they arrived (milliseconds since
/// the epoch).
#[derive(Debug, PartialEq, Eq)]
pub enum WorkerEvent {
    TabUpdate(Vec<TabInfo>, u64),
    PaneUpdate(PaneManifest, u64),
    SessionUpdate(Vec<SessionInfo>),
    /// The access-time file was read and parsed.
    TimestampsLoaded(TimestampMap),
    Other,
}

/// Work for the host side.
#[derive(Clone, Debug, PartialEq, Eq)]
pub enum WorkerAction {
    /// Read the access times of the session.
    LoadTimestamps(String),
    /// Write the access times held in the state for the session.
    SaveTimestamps(String),
    /// Append a line to the session's debug log.
    Log(String, String),
}

/// The tracker's state.
pub struct WorkerState {
    pub tab_info: Option<Vec<TabInfo>>,
    pub pane_manifest: Option<PaneManifest>,
    pub session_name: Option<String>,
    pub last_focused_id: Option<u32>,
    pub timestamps: TimestampMap,
    pub debug: bool,
}

/// The tracker's state as plain values.
pub struct WorkerView {
    pub tab_info: Option<Seq<TabInfo>>,
    pub pane_manifest: Option<Seq<(usize, Vec<PaneInfo>)>>,
    pub session_name: Option<String>,
    pub last_focused_id: Option<u32>,
    pub timestamps: Seq<TimestampEntry>,
    pub debug: bool,
}

impl View for WorkerState {
    type V = WorkerView;

    open spec fn view(&self) -> WorkerView {
        WorkerView {
            tab_info: match self.tab_info {
                Some(t) => Some(t@),
                None => None,
            },
            pane_manifest: match self.pane_manifest {
                Some(m) => Some(m.panes@),
                None => None,
            },
            session_name: self.session_name,
            last_focused_id: self.last_focused_id,
            timestamps: self.timestamps.entries@,
            debug: self.debug,
        }
    }
}

/// A host action as plain values.
pub enum WorkerActionView {
    LoadTimestamps(Seq<char>),
    SaveTimestamps(Seq<char>),
    Log(Seq<char>, Seq<char>),
}

impl View for WorkerAction {
    type V = WorkerActionView;

    open spec fn view(&self) -> WorkerActionView {
        match self {
            WorkerAction::LoadTimestamps(s) => WorkerActionView::LoadTimestamps(s@),
            WorkerAction::SaveTimestamps(s) => WorkerActionView::SaveTimestamps(s@),
            WorkerAction::Log(s, m) => WorkerActionView::Log(s@, m@),
        }
    }
}

/// The actions as plain values.
pub open spec fn actions_view(a: Seq<WorkerAction>) -> Seq<WorkerActionView> {
    a.map_values(|x: WorkerAction| x@)
}

/// The debug message for a change of focus.
pub open spec fn focus_message_text(id: u32, tab: Seq<char>, title: Seq<char>, ts: u64) -> Seq<char> {
    "focus changed: pane_id="@ + decimal(id as nat) + " tab=\""@ + tab + "\" title=\""@ + title + "\" ts="@ + decimal(ts as nat)
}

/// When the focused terminal pane (of the active tab; the first terminal
/// pane there when none has focus) differs from the last one seen, its
/// access time becomes `now`, a debug line is logged when debugging, and the
/// times are saved; both need a known session.
pub open spec fn focus_tracked(w: WorkerView, now: u64) -> (WorkerView, Seq<WorkerActionView>) {
    match (w.tab_info, w.pane_manifest) {
        (Some(tabs), Some(m)) => match spec_focused_tab(tabs) {
            None => (w, seq![]),
            Some(ft) => match spec_focused_pane(ft.position, m) {
                None => (w, seq![]),
                Some(fp) => if w.last_focused_id == Some(fp.id) {
                    (w, seq![])
                } else {
                    let w1 = WorkerView {
                        last_focused_id: Some(fp.id),
                        timestamps: recorded(w.timestamps, fp.id, ft.name, fp.title, now),
                        ..w
                    };
                    let acts = match w.session_name {
                        Some(s) => if w.debug {
                            seq![
                                WorkerActionView::Log(s@, focus_message_text(fp.id, ft.name@, fp.title@, now)),
                                WorkerActionView::SaveTimestamps(s@),
                            ]
                        } else {
                            seq![WorkerActionView::SaveTimestamps(s@)]
                        },
                        None => seq![],
                    };
                    (w1, acts)
                },
            },
        },
        _ => (w, seq![]),
    }
}

/// The first time the current session is reported, its name is kept and its
/// access times are asked for.
pub open spec fn worker_session_updated(w: WorkerView, infos: Seq<SessionInfo>) -> (WorkerView, Seq<WorkerActionView>) {
    if w.session_name is Some {
        (w, seq![])
    } else {
        match first_such(infos, is_current_session()) {
            None => (w, seq![]),
            Some(si) => (WorkerView { session_name: Some(si.name), ..w }, seq![WorkerActionView::LoadTimestamps(si.name@)]),
        }
    }
}

/// The new state and the host actions after event `e` in state `w`.
pub open spec fn worker_step(w: WorkerView, e: WorkerEvent) -> (WorkerView, Seq<WorkerActionView>) {
    match e {
        WorkerEvent::TabUpdate(tabs, now) => focus_tracked(WorkerView { tab_info: Some(tabs@), ..w }, now),
        WorkerEvent::PaneUpdate(m, now) => focus_tracked(WorkerView { pane_manifest: Some(m.panes@), ..w }, now),
        WorkerEvent::SessionUpdate(infos) => worker_session_updated(w, infos@),
        WorkerEvent::TimestampsLoaded(map) => (WorkerView { timestamps: map.entries@, ..w }, seq![]),
        WorkerEvent::Other => (w, seq![]),
    }
}

impl WorkerState {
    /// A fresh tracker.
    pub fn new(debug: bool) -> (r: WorkerState)
        ensures
            r@.tab_info is None,
            r@.pane_manifest is None,
            r@.session_name is None,
            r@.last_focused_id is None,
            r@.timestamps.len() == 0,
            r@.debug == debug,
    {
        WorkerState {
            tab_info: None,
            pane_manifest: None,
            session_name: None,
            last_focused_id: None,
            timestamps: TimestampMap::new(),
            debug,
        }
    }

    /// Records the focused pane's access time when focus moved (see
    /// `focus_tracked`).
    pub fn update_focus(&mut self, now: u64, actions: &mut Vec<WorkerAction>)
        ensures
            final(self)@ == focus_tracked(old(self)@, now).0,
            actions_view(final(actions)@) == actions_view(old(actions)@) + focus_tracked(old(self)@, now).1,
    {
        let ghost a0 = actions@;
        assert(actions_view(a0) =~= actions_view(a0) + Seq::<WorkerActionView>::empty());
        let tab_info = match &self.tab_info {
            Some(t) => t,
            None => return,
        };
        let pane_manifest = match &self.pane_manifest {
            Some(p) => p,
            None => return,
        };
        let focused_tab = match get_focused_tab(tab_info) {
            Some(t) => t,
            None => return,
        };
        let focused_pane = match get_focused_pane(focused_tab.position, pane_manifest) {
            Some(p) => p,
            None => return,
        };
        if self.last_focused_id == Some(focused_pane.id) {
            return;
        }
        self.last_focused_id = Some(focused_pane.id);
        let pane_id = focused_pane.id;
        if self.debug {
            if let Some(session) = &self.session_name {
                let msg = focus_message(pane_id, focused_tab.name.as_str(), focused_pane.title.as_str(), now);
                actions.push(WorkerAction::Log(session.clone(), msg));
            }
        }
        self.timestamps.record_focus(pane_id, &focused_tab.name, &focused_pane.title, now);
        if let Some(session) = &self.session_name {
            actions.push(WorkerAction::SaveTimestamps(session.clone()));
        }
        proof {
            assert(actions_view(actions@) =~= actions_view(a0) + focus_tracked(old(self)@, now).1);
        }
    }

    /// The first report of the current session: keep its name and ask for
    /// its access times.
    fn on_session_update(&mut self, infos: Vec<SessionInfo>, actions: &mut Vec<WorkerAction>)
        ensures
            final(self)@ == worker_session_updated(old(self)@, infos@).0,
            actions_view(final(actions)@) == actions_view(old(actions)@) + worker_session_updated(old(self)@, infos@).1,
    {
        let ghost a0 = actions@;
        assert(actions_view(a0) =~= actions_view(a0) + Seq::<WorkerActionView>::empty());
        if self.session_name.is_some() {
            return;
        }
        let ghost pred = is_current_session();
        let mut i: usize = 0;
        while i < infos.len()
            invariant
                i <= infos.len(),
                *self == *old(self),
                actions@ == a0,
                a0 == old(actions)@,
                actions_view(a0) =~= actions_view(a0) + Seq::<WorkerActionView>::empty(),
                old(self).session_name is None,
                pred == is_current_session(),
                forall|j: int| 0 <= j < i ==> !pred(#[trigger] infos@[j]),
            decreases infos.len() - i,
        {
            if infos[i].is_current_session {
                proof {
                    lemma_find_first_is(infos@, pred, i as int);
                }
                self.session_name = Some(infos[i].name.clone());
                actions.push(WorkerAction::LoadTimestamps(infos[i].name.clone()));
                assert(actions_view(actions@) =~= actions_view(a0) + seq![WorkerActionView::LoadTimestamps(infos@[i as int].name@)]);
                return;
            }
            i += 1;
        }
        proof {
            lemma_find_first_none(infos@, pred);
        }
    }

    /// Handles an event from the host, appending the actions for the host
    /// side to `actions`.
    pub fn handle_event(&mut self, event: WorkerEvent, actions: &mut Vec<WorkerAction>)
        ensures
            final(self)@ == worker_step(old(self)@, event).0,
            actions_view(final(actions)@) == actions_view(old(actions)@) + worker_step(old(self)@, event).1,
    {
        let ghost a0 = actions@;
        assert(actions_view(a0) =~= actions_view(a0) + Seq::<WorkerActionView>::empty());
        match event {
            WorkerEvent::TabUpdate(tab_info, now) => {
                self.tab_info = Some(tab_info);
                self.update_focus(now, actions);
            },
            WorkerEvent::PaneUpdate(pane_manifest, now) => {
                self.pane_manifest = Some(pane_manifest);
                self.update_focus(now, actions);
            },
            WorkerEvent::SessionUpdate(infos) => {
                self.on_session_update(infos, actions);
            },
            WorkerEvent::TimestampsLoaded(map) => {
                self.timestamps = map;
            },
            WorkerEvent::Other => {},
        }
    }
}

} // verus!
